//! The features of a shapefile: built record by record, and written as they come.
use vstd::prelude::*;
use vstd::string::*;

use crate::error::AppError;
use crate::geometry::{
    covers, geometry_of, shape_to_geometry, vertices_of, CoordTransform, Geometry, GeometryError,
    GeometryModel, Shape,
};
use crate::properties::{
    json_of, law_records_keep_their_fields, properties_view, record_fields, record_to_properties,
    FieldValue, JsonValue,
};
use crate::text::outcome;

verus! {

// ── One feature ─────────────────────────────────────────────────────────────
/// A GeoJSON feature. It has a geometry, which may be null, and properties.
#[derive(Debug, PartialEq, Eq)]
pub struct Feature {
    pub geometry: Option<Geometry>,
    pub properties: Vec<(String, JsonValue)>,
}

/// A GeoJSON feature, as mathematical values.
pub struct FeatureModel {
    pub geometry: Option<GeometryModel>,
    pub properties: Seq<(Seq<char>, JsonValue<Seq<char>>)>,
}

impl View for Feature {
    type V = FeatureModel;

    open spec fn view(&self) -> FeatureModel {
        FeatureModel {
            geometry: match self.geometry {
                Some(g) => Some(g@),
                None => None,
            },
            properties: properties_view(self.properties@),
        }
    }
}

/// A record of a shapefile: its attributes, each under its name.
pub type Record = Vec<(String, FieldValue)>;

/// The feature for a shape and its attribute record.
pub open spec fn feature_of(
    shape: &Shape,
    record: Seq<(String, FieldValue)>,
    t: &CoordTransform,
) -> Result<FeatureModel, GeometryError> {
    match geometry_of(shape, t) {
        Ok(geometry) => Ok(FeatureModel { geometry, properties: record_fields(record) }),
        Err(e) => Err(e),
    }
}

/// Constructs a GeoJSON `Feature` from a shape and its attribute record.
pub fn build_feature(shape: &Shape, record: &Record, transform: &CoordTransform) -> (r: Result<
    Feature,
    GeometryError,
>)
    requires
        covers(transform, 0, vertices_of(shape).len() as int),
    ensures
        match r {
            Ok(feature) => feature_of(shape, record@, transform) == Ok::<
                FeatureModel,
                GeometryError,
            >(feature@),
            Err(e) => feature_of(shape, record@, transform) == Err::<FeatureModel, GeometryError>(
                e,
            ),
        },
{
    match shape_to_geometry(shape, transform) {
        Ok(geometry) => Ok(Feature { geometry, properties: record_to_properties(record) }),
        Err(e) => Err(e),
    }
}

// ── A stream of features ────────────────────────────────────────────────────
/// Why a stream of features ended early.
#[derive(Debug, PartialEq, Eq)]
pub enum StreamError<T = String> {
    /// A file could not be read or written.
    File(AppError<T>),
    /// A shape has no geometry.
    Geometry(GeometryError),
}

impl View for StreamError {
    type V = StreamError<Seq<char>>;

    open spec fn view(&self) -> StreamError<Seq<char>> {
        match self {
            StreamError::File(e) => StreamError::File(e@),
            StreamError::Geometry(e) => StreamError::Geometry(*e),
        }
    }
}

/// What is being done for a stream of features.
#[derive(Debug, PartialEq, Eq)]
pub enum StreamState<T = String, F = Feature> {
    /// Resolving the coordinate transform, once per file.
    Resolving,
    /// Opening the shapefile.
    Opening,
    /// Creating the file that is written to.
    Creating,
    /// Reading the next record.
    Reading,
    /// Writing this feature.
    Writing(F),
    /// Finishing the file.
    Closing,
    /// Nothing: all features are written.
    Done,
    /// Nothing: the stream ended early.
    Failed(StreamError<T>),
}

/// A stream of features from a shapefile to a file.
#[derive(Debug, PartialEq, Eq)]
pub struct FeatureStream<T = String, F = Feature> {
    pub state: StreamState<T, F>,
    /// Number of features written.
    pub features_written: u64,
    /// Number of records skipped.
    pub records_skipped: u64,
}

/// A stream as a mathematical value.
pub type StreamModel = FeatureStream<Seq<char>, FeatureModel>;

impl View for FeatureStream {
    type V = StreamModel;

    open spec fn view(&self) -> StreamModel {
        FeatureStream {
            state: match self.state {
                StreamState::Resolving => StreamState::Resolving,
                StreamState::Opening => StreamState::Opening,
                StreamState::Creating => StreamState::Creating,
                StreamState::Reading => StreamState::Reading,
                StreamState::Writing(feature) => StreamState::Writing(feature@),
                StreamState::Closing => StreamState::Closing,
                StreamState::Done => StreamState::Done,
                StreamState::Failed(e) => StreamState::Failed(e@),
            },
            features_written: self.features_written,
            records_skipped: self.records_skipped,
        }
    }
}

/// Why a feature could not be written.
#[derive(Debug, PartialEq, Eq)]
pub enum WriteFailure<T = String> {
    /// It could not be encoded.
    Encode(T),
    /// The end of its line could not be written.
    Newline(T),
}

impl View for WriteFailure {
    type V = WriteFailure<Seq<char>>;

    open spec fn view(&self) -> WriteFailure<Seq<char>> {
        match self {
            WriteFailure::Encode(cause) => WriteFailure::Encode(cause@),
            WriteFailure::Newline(cause) => WriteFailure::Newline(cause@),
        }
    }
}

/// Why the file could not be finished.
#[derive(Debug, PartialEq, Eq)]
pub enum CloseFailure<T = String> {
    /// The collection could not be closed.
    Finish(T),
    /// What was buffered could not be written out.
    Flush(T),
}

impl View for CloseFailure {
    type V = CloseFailure<Seq<char>>;

    open spec fn view(&self) -> CloseFailure<Seq<char>> {
        match self {
            CloseFailure::Finish(cause) => CloseFailure::Finish(cause@),
            CloseFailure::Flush(cause) => CloseFailure::Flush(cause@),
        }
    }
}

/// What came of what was being done.
#[derive(Debug, PartialEq, Eq)]
pub enum StreamEvent<T = String> {
    /// The transform is known, or cannot be resolved.
    Resolved(Result<(), AppError<T>>),
    /// The shapefile is open, or cannot be read.
    Opened(Result<(), T>),
    /// The file that is written to exists, or cannot be created.
    Created(Result<(), T>),
    /// A shape was read with its attributes. This is how its coordinates are
    /// transformed.
    Record(Shape, Record, CoordTransform),
    /// A record cannot be read.
    Unreadable(T),
    /// There are no more records.
    Exhausted,
    /// The feature was written, or could not be.
    Written(Result<(), WriteFailure<T>>),
    /// The file was finished, or could not be.
    Closed(Result<(), CloseFailure<T>>),
}

impl View for StreamEvent {
    type V = StreamEvent<Seq<char>>;

    open spec fn view(&self) -> StreamEvent<Seq<char>> {
        match self {
            StreamEvent::Resolved(r) => StreamEvent::Resolved(
                match r {
                    Ok(done) => Ok(*done),
                    Err(e) => Err(e@),
                },
            ),
            StreamEvent::Opened(r) => StreamEvent::Opened(outcome(*r)),
            StreamEvent::Created(r) => StreamEvent::Created(outcome(*r)),
            StreamEvent::Record(shape, record, t) => StreamEvent::Record(*shape, *record, *t),
            StreamEvent::Unreadable(cause) => StreamEvent::Unreadable(cause@),
            StreamEvent::Exhausted => StreamEvent::Exhausted,
            StreamEvent::Written(r) => StreamEvent::Written(
                match r {
                    Ok(done) => Ok(*done),
                    Err(f) => Err(f@),
                },
            ),
            StreamEvent::Closed(r) => StreamEvent::Closed(
                match r {
                    Ok(done) => Ok(*done),
                    Err(f) => Err(f@),
                },
            ),
        }
    }
}

/// The files of a stream: the shapefile, and the file that is written to.
#[derive(Debug, PartialEq, Eq)]
pub struct StreamFiles<T = String> {
    pub shp: T,
    pub tmp: T,
    /// One feature per line, instead of a collection.
    pub geojsonl: bool,
}

impl View for StreamFiles {
    type V = StreamFiles<Seq<char>>;

    open spec fn view(&self) -> StreamFiles<Seq<char>> {
        StreamFiles { shp: self.shp@, tmp: self.tmp@, geojsonl: self.geojsonl }
    }
}

/// The error to report where a feature could not be written.
pub open spec fn write_error(files: StreamFiles<Seq<char>>, failure: WriteFailure<Seq<char>>) ->
    AppError<Seq<char>> {
    match failure {
        WriteFailure::Encode(cause) => AppError::GeoJson { path: files.shp, reason: cause },
        WriteFailure::Newline(cause) => AppError::Io { path: files.tmp, source: cause },
    }
}

/// The error to report where the file could not be finished.
pub open spec fn close_error(files: StreamFiles<Seq<char>>, failure: CloseFailure<Seq<char>>) ->
    AppError<Seq<char>> {
    match failure {
        CloseFailure::Finish(cause) => AppError::GeoJson { path: files.shp, reason: cause },
        CloseFailure::Flush(cause) => if files.geojsonl {
            AppError::Io { path: files.tmp, source: cause }
        } else {
            AppError::GeoJson { path: files.tmp, reason: cause }
        },
    }
}

/// The stream ends early with this error.
pub open spec fn ended(s: StreamModel, e: AppError<Seq<char>>) -> StreamModel {
    FeatureStream { state: StreamState::Failed(StreamError::File(e)), ..s }
}

/// The stream goes on with this.
pub open spec fn continued(
    s: StreamModel,
    state: StreamState<Seq<char>, FeatureModel>,
) -> StreamModel {
    FeatureStream { state, ..s }
}

/// What a record does to a stream: a multipatch is skipped, any other shape makes a
/// feature or ends the stream.
pub open spec fn with_record(
    s: StreamModel,
    shape: &Shape,
    record: Seq<(String, FieldValue)>,
    t: &CoordTransform,
) -> StreamModel {
    if shape is Multipatch {
        FeatureStream { records_skipped: (s.records_skipped + 1) as u64, ..s }
    } else {
        match feature_of(shape, record, t) {
            Ok(feature) => continued(s, StreamState::Writing(feature)),
            Err(e) => continued(s, StreamState::Failed(StreamError::Geometry(e))),
        }
    }
}

/// What is done next. An event that does not belong to the state changes nothing.
pub open spec fn next_stream(
    files: StreamFiles<Seq<char>>,
    s: StreamModel,
    event: StreamEvent<Seq<char>>,
) -> StreamModel {
    match (s.state, event) {
        (StreamState::Resolving, StreamEvent::Resolved(r)) => match r {
            Ok(_) => continued(s, StreamState::Opening),
            Err(e) => ended(s, e),
        },
        (StreamState::Opening, StreamEvent::Opened(r)) => match r {
            Ok(_) => continued(s, StreamState::Creating),
            Err(cause) => ended(s, AppError::ShapefileRead { path: files.shp, source: cause }),
        },
        (StreamState::Creating, StreamEvent::Created(r)) => match r {
            Ok(_) => continued(s, StreamState::Reading),
            Err(cause) => ended(s, AppError::Io { path: files.tmp, source: cause }),
        },
        (StreamState::Reading, StreamEvent::Record(shape, record, t)) => with_record(
            s,
            &shape,
            record@,
            &t,
        ),
        (StreamState::Reading, StreamEvent::Unreadable(cause)) => ended(
            s,
            AppError::ShapefileRead { path: files.shp, source: cause },
        ),
        (StreamState::Reading, StreamEvent::Exhausted) => continued(s, StreamState::Closing),
        (StreamState::Writing(_), StreamEvent::Written(r)) => match r {
            Ok(_) => FeatureStream {
                state: StreamState::Reading,
                features_written: (s.features_written + 1) as u64,
                ..s
            },
            Err(failure) => ended(s, write_error(files, failure)),
        },
        (StreamState::Closing, StreamEvent::Closed(r)) => match r {
            Ok(_) => continued(s, StreamState::Done),
            Err(failure) => ended(s, close_error(files, failure)),
        },
        _ => s,
    }
}

/// The event completes the writing of a feature.
pub open spec fn completes_record(s: StreamModel, event: StreamEvent<Seq<char>>) -> bool {
    s.state is Writing && event matches StreamEvent::Written(Ok(_))
}

fn report_write(files: &StreamFiles, failure: WriteFailure) -> (r: AppError)
    ensures
        r@ == write_error(files@, failure@),
{
    match failure {
        WriteFailure::Encode(cause) => AppError::GeoJson { path: files.shp.clone(), reason: cause },
        WriteFailure::Newline(cause) => AppError::Io { path: files.tmp.clone(), source: cause },
    }
}

fn report_close(files: &StreamFiles, failure: CloseFailure) -> (r: AppError)
    ensures
        r@ == close_error(files@, failure@),
{
    match failure {
        CloseFailure::Finish(cause) => AppError::GeoJson { path: files.shp.clone(), reason: cause },
        CloseFailure::Flush(cause) => if files.geojsonl {
            AppError::Io { path: files.tmp.clone(), source: cause }
        } else {
            AppError::GeoJson { path: files.tmp.clone(), reason: cause }
        },
    }
}

impl FeatureStream {
    /// A stream that is about to begin.
    pub fn new() -> (r: Self)
        ensures
            r@ == (FeatureStream::<Seq<char>, FeatureModel> {
                state: StreamState::Resolving,
                features_written: 0,
                records_skipped: 0,
            }),
    {
        FeatureStream { state: StreamState::Resolving, features_written: 0, records_skipped: 0 }
    }

    fn end(&mut self, e: AppError)
        ensures
            final(self)@ == ended(old(self)@, e@),
    {
        self.state = StreamState::Failed(StreamError::File(e));
    }

    fn read(&mut self, shape: &Shape, record: &Record, transform: &CoordTransform)
        requires
            old(self).state is Reading,
            old(self).records_skipped < u64::MAX,
            covers(transform, 0, vertices_of(shape).len() as int),
        ensures
            final(self)@ == with_record(old(self)@, shape, record@, transform),
    {
        let skip = match shape {
            Shape::Multipatch => true,
            _ => false,
        };
        if skip {
            self.records_skipped = self.records_skipped + 1;
        } else {
            match build_feature(shape, record, transform) {
                Ok(feature) => {
                    self.state = StreamState::Writing(feature);
                },
                Err(e) => {
                    self.state = StreamState::Failed(StreamError::Geometry(e));
                },
            }
        }
    }

    /// Whether this event completes the writing of a feature: progress is reported once
    /// for each such event, and for no other.
    pub fn is_record_written(&self, event: &StreamEvent) -> (r: bool)
        ensures
            r == completes_record(self@, event@),
    {
        match (&self.state, event) {
            (StreamState::Writing(_), StreamEvent::Written(Ok(_))) => true,
            _ => false,
        }
    }

    /// Goes on with the stream, given what came of what was being done.
    ///
    /// A record that is reprojected comes with an outcome for each of its vertices.
    pub fn write_features(&mut self, files: &StreamFiles, event: StreamEvent)
        requires
            old(self).features_written < u64::MAX,
            old(self).records_skipped < u64::MAX,
            event matches StreamEvent::Record(shape, _, t) ==> covers(
                &t,
                0,
                vertices_of(&shape).len() as int,
            ),
        ensures
            final(self)@ == next_stream(files@, old(self)@, event@),
    {
        match (&self.state, event) {
            (StreamState::Resolving, StreamEvent::Resolved(r)) => match r {
                Ok(_) => {
                    self.state = StreamState::Opening;
                },
                Err(e) => self.end(e),
            },
            (StreamState::Opening, StreamEvent::Opened(r)) => match r {
                Ok(_) => {
                    self.state = StreamState::Creating;
                },
                Err(cause) => self.end(
                    AppError::ShapefileRead { path: files.shp.clone(), source: cause },
                ),
            },
            (StreamState::Creating, StreamEvent::Created(r)) => match r {
                Ok(_) => {
                    self.state = StreamState::Reading;
                },
                Err(cause) => self.end(AppError::Io { path: files.tmp.clone(), source: cause }),
            },
            (StreamState::Reading, StreamEvent::Record(shape, record, t)) => {
                self.read(&shape, &record, &t);
            },
            (StreamState::Reading, StreamEvent::Unreadable(cause)) => self.end(
                AppError::ShapefileRead { path: files.shp.clone(), source: cause },
            ),
            (StreamState::Reading, StreamEvent::Exhausted) => {
                self.state = StreamState::Closing;
            },
            (StreamState::Writing(_), StreamEvent::Written(r)) => match r {
                Ok(_) => {
                    self.state = StreamState::Reading;
                    self.features_written = self.features_written + 1;
                },
                Err(failure) => self.end(report_write(files, failure)),
            },
            (StreamState::Closing, StreamEvent::Closed(r)) => match r {
                Ok(_) => {
                    self.state = StreamState::Done;
                },
                Err(failure) => self.end(report_close(files, failure)),
            },
            _ => {},
        }
    }
}

// ── Laws ────────────────────────────────────────────────────────────────────
/// A stream that is about to begin.
pub open spec fn begun() -> StreamModel {
    FeatureStream { state: StreamState::Resolving, features_written: 0, records_skipped: 0 }
}

/// The stream after these events.
pub open spec fn stream_after(
    files: StreamFiles<Seq<char>>,
    events: Seq<StreamEvent<Seq<char>>>,
) -> StreamModel
    decreases events.len(),
{
    if events.len() == 0 {
        begun()
    } else {
        next_stream(files, stream_after(files, events.drop_last()), events.last())
    }
}

/// The shapes of the records that were read, in their order.
pub open spec fn shapes_read(
    files: StreamFiles<Seq<char>>,
    events: Seq<StreamEvent<Seq<char>>>,
) -> Seq<Shape>
    decreases events.len(),
{
    if events.len() == 0 {
        Seq::empty()
    } else {
        let front = shapes_read(files, events.drop_last());
        match (stream_after(files, events.drop_last()).state, events.last()) {
            (StreamState::Reading, StreamEvent::Record(shape, _, _)) => front.push(shape),
            _ => front,
        }
    }
}

/// The number of multipatches among shapes.
pub open spec fn multipatches(shapes: Seq<Shape>) -> nat
    decreases shapes.len(),
{
    if shapes.len() == 0 {
        0
    } else {
        multipatches(shapes.drop_last()) + if shapes.last() is Multipatch {
            1nat
        } else {
            0nat
        }
    }
}

/// The number of features that are being written: one or none.
pub open spec fn in_hand(s: StreamModel) -> nat {
    if s.state is Writing {
        1
    } else {
        0
    }
}

/// Until a stream ends early, each record that was read is either skipped, which
/// happens to the multipatches alone, or written as one feature.
pub proof fn law_every_record_is_accounted_for(
    files: StreamFiles<Seq<char>>,
    events: Seq<StreamEvent<Seq<char>>>,
)
    requires
        events.len() <= u64::MAX,
        !(stream_after(files, events).state is Failed),
    ensures
        ({
            let s = stream_after(files, events);
            let shapes = shapes_read(files, events);
            &&& s.records_skipped == multipatches(shapes)
            &&& s.features_written + s.records_skipped + in_hand(s) == shapes.len()
            &&& s.state is Done ==> s.features_written + s.records_skipped == shapes.len()
        }),
{
    lemma_records_are_counted(files, events);
}

proof fn lemma_records_are_counted(
    files: StreamFiles<Seq<char>>,
    events: Seq<StreamEvent<Seq<char>>>,
)
    requires
        events.len() <= u64::MAX,
    ensures
        ({
            let s = stream_after(files, events);
            let shapes = shapes_read(files, events);
            &&& s.features_written <= events.len()
            &&& s.records_skipped <= events.len()
            &&& !(s.state is Failed) ==> {
                &&& s.records_skipped == multipatches(shapes)
                &&& s.features_written + s.records_skipped + in_hand(s) == shapes.len()
            }
        }),
    decreases events.len(),
{
    if events.len() > 0 {
        lemma_records_are_counted(files, events.drop_last());
        let before = stream_after(files, events.drop_last());
        let front = shapes_read(files, events.drop_last());
        match (before.state, events.last()) {
            (StreamState::Reading, StreamEvent::Record(shape, _, _)) => {
                assert(front.push(shape).drop_last() =~= front);
            },
            _ => {},
        }
    }
}

/// The number of events that completed the writing of a feature: how often progress was
/// reported.
pub open spec fn ticks(
    files: StreamFiles<Seq<char>>,
    events: Seq<StreamEvent<Seq<char>>>,
) -> nat
    decreases events.len(),
{
    if events.len() == 0 {
        0
    } else {
        ticks(files, events.drop_last()) + if completes_record(
            stream_after(files, events.drop_last()),
            events.last(),
        ) {
            1nat
        } else {
            0nat
        }
    }
}

/// Progress is reported once for each feature that is written, whether or not the stream
/// ended early. A record that is skipped, or that fails, is not reported.
pub proof fn law_one_tick_per_feature(
    files: StreamFiles<Seq<char>>,
    events: Seq<StreamEvent<Seq<char>>>,
)
    requires
        events.len() <= u64::MAX,
    ensures
        ticks(files, events) == stream_after(files, events).features_written,
    decreases events.len(),
{
    if events.len() > 0 {
        law_one_tick_per_feature(files, events.drop_last());
        lemma_records_are_counted(files, events.drop_last());
    }
}

/// A stream that has ended, early or not, stays as it is.
pub proof fn law_ended_stream_stays(
    files: StreamFiles<Seq<char>>,
    s: StreamModel,
    event: StreamEvent<Seq<char>>,
)
    requires
        s.state is Done || s.state is Failed,
    ensures
        next_stream(files, s, event) == s,
{
}

/// A feature has the geometry of its shape and a property for each field of its record,
/// in their order, under the field's name and with its value. It has no geometry exactly
/// where the shape has none.
pub proof fn law_feature_is_shape_and_record(
    shape: &Shape,
    record: Seq<(String, FieldValue)>,
    t: &CoordTransform,
)
    ensures
        match feature_of(shape, record, t) {
            Ok(feature) => {
                &&& geometry_of(shape, t) == Ok::<Option<GeometryModel>, GeometryError>(
                    feature.geometry,
                )
                &&& feature.properties.len() == record.len()
                &&& forall|i: int|
                    0 <= i < record.len() ==> (#[trigger] feature.properties[i]).0 == record[i].0@
                        && feature.properties[i].1 == json_of(&record[i].1)
            },
            Err(e) => geometry_of(shape, t) == Err::<Option<GeometryModel>, GeometryError>(e),
        },
{
    law_records_keep_their_fields(record);
}

/// A stream on which every step succeeds: the transform is resolved, the shapefile
/// opened, the file created, each record read and its feature written, and the file
/// closed at the end.
pub proof fn law_stream_runs_its_course(
    files: StreamFiles<Seq<char>>,
    s: StreamModel,
    shape: Shape,
    record: Record,
    t: CoordTransform,
)
    requires
        s.state is Reading,
        s.features_written < u64::MAX,
        s.records_skipped < u64::MAX,
    ensures
        ({
            let ready = seq![
                StreamEvent::<Seq<char>>::Resolved(Ok(())),
                StreamEvent::<Seq<char>>::Opened(Ok(())),
                StreamEvent::<Seq<char>>::Created(Ok(())),
            ];
            &&& stream_after(files, ready).state is Reading
            &&& stream_after(files, ready).features_written == 0
            &&& stream_after(files, ready).records_skipped == 0
        }),
        ({
            let after = next_stream(files, s, StreamEvent::Record(shape, record, t));
            if shape is Multipatch {
                &&& after.state is Reading
                &&& after.records_skipped == s.records_skipped + 1
                &&& after.features_written == s.features_written
            } else {
                &&& after.records_skipped == s.records_skipped
                &&& after.features_written == s.features_written
                &&& match feature_of(&shape, record@, &t) {
                    Ok(feature) => {
                        let written = next_stream(files, after, StreamEvent::Written(Ok(())));
                        &&& after.state == StreamState::<Seq<char>, FeatureModel>::Writing(feature)
                        &&& written.state is Reading
                        &&& written.features_written == s.features_written + 1
                        &&& written.records_skipped == s.records_skipped
                    },
                    Err(e) => after.state == StreamState::<Seq<char>, FeatureModel>::Failed(
                        StreamError::Geometry(e),
                    ),
                }
            }
        }),
        ({
            let closing = next_stream(files, s, StreamEvent::Exhausted);
            let done = next_stream(files, closing, StreamEvent::Closed(Ok(())));
            &&& closing.state is Closing
            &&& done.state is Done
            &&& done.features_written == s.features_written
            &&& done.records_skipped == s.records_skipped
        }),
{
    let none = Seq::<StreamEvent<Seq<char>>>::empty();
    let a = none.push(StreamEvent::Resolved(Ok(())));
    let b = a.push(StreamEvent::Opened(Ok(())));
    let c = b.push(StreamEvent::Created(Ok(())));
    assert(a.drop_last() =~= none);
    assert(b.drop_last() =~= a);
    assert(c.drop_last() =~= b);
    assert(stream_after(files, none) == begun());
    assert(stream_after(files, a).state is Opening);
    assert(stream_after(files, b).state is Creating);
    assert(c =~= seq![
        StreamEvent::<Seq<char>>::Resolved(Ok(())),
        StreamEvent::<Seq<char>>::Opened(Ok(())),
        StreamEvent::<Seq<char>>::Created(Ok(())),
    ]);
}

/// A step that fails ends the stream, with an error about the file that the step was
/// about and with the cause that was given. What was counted stays.
pub proof fn law_failed_step_ends_the_stream(
    files: StreamFiles<Seq<char>>,
    s: StreamModel,
    e: AppError<Seq<char>>,
    cause: Seq<char>,
)
    ensures
        ({
            let after = |event: StreamEvent<Seq<char>>| next_stream(files, s, event);
            let fails = |event: StreamEvent<Seq<char>>, error: AppError<Seq<char>>|
                {
                    &&& after(event).state == StreamState::<Seq<char>, FeatureModel>::Failed(
                        StreamError::File(error),
                    )
                    &&& after(event).features_written == s.features_written
                    &&& after(event).records_skipped == s.records_skipped
                };
            let unreadable = AppError::ShapefileRead { path: files.shp, source: cause };
            &&& s.state is Resolving ==> fails(StreamEvent::Resolved(Err(e)), e)
            &&& s.state is Opening ==> fails(StreamEvent::Opened(Err(cause)), unreadable)
            &&& s.state is Creating ==> fails(
                StreamEvent::Created(Err(cause)),
                AppError::Io { path: files.tmp, source: cause },
            )
            &&& s.state is Reading ==> fails(StreamEvent::Unreadable(cause), unreadable)
            &&& s.state is Writing ==> fails(
                StreamEvent::Written(Err(WriteFailure::Encode(cause))),
                AppError::GeoJson { path: files.shp, reason: cause },
            )
            &&& s.state is Writing ==> fails(
                StreamEvent::Written(Err(WriteFailure::Newline(cause))),
                AppError::Io { path: files.tmp, source: cause },
            )
            &&& s.state is Closing ==> fails(
                StreamEvent::Closed(Err(CloseFailure::Finish(cause))),
                AppError::GeoJson { path: files.shp, reason: cause },
            )
            &&& s.state is Closing && files.geojsonl ==> fails(
                StreamEvent::Closed(Err(CloseFailure::Flush(cause))),
                AppError::Io { path: files.tmp, source: cause },
            )
            &&& s.state is Closing && !files.geojsonl ==> fails(
                StreamEvent::Closed(Err(CloseFailure::Flush(cause))),
                AppError::GeoJson { path: files.tmp, reason: cause },
            )
        }),
{
}

} // verus!

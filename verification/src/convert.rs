//! The conversion of one shapefile, step by step.
use vstd::prelude::*;
use vstd::string::*;

use crate::discover::{is_shp, ShapefileEntry};
use crate::error::AppError;
use crate::paths::{
    components, file_name_of, is_name, join, joined_path, lemma_components,
    lemma_renamed_last_apart, parent, parent_path, path_with_extension, remainder, renamed,
    renamed_last, root, strip_prefix, temporary_of, temporary_path, with_extension, without_dot,
};
use crate::text::{lemma_middle_occurs, occurs, outcome};

verus! {

// ── Where the output goes ───────────────────────────────────────────────────
/// The extension of an output file.
pub open spec fn output_extension(geojsonl: bool) -> Seq<char> {
    if geojsonl {
        "geojsonl"@
    } else {
        "geojson"@
    }
}

/// The output path for a `.shp` file.
pub open spec fn output_path(
    shp: Seq<char>,
    input_root: Seq<char>,
    output_root: Seq<char>,
    geojsonl: bool,
) -> Result<Seq<char>, AppError<Seq<char>>> {
    match remainder(shp, input_root) {
        Some(relative) => Ok(
            path_with_extension(joined_path(output_root, relative), output_extension(geojsonl)),
        ),
        None => Err(
            AppError::GeoJson {
                path: shp,
                reason: "could not make "@ + shp + " relative to "@ + input_root,
            },
        ),
    }
}

/// Where a `.shp` file is placed: behind the components of `output_root` come those
/// that it has behind the ones of `input_root`. Only where `input_root` has no
/// components can these start with `/`, in which case they stand alone, or with `.`,
/// which is then dropped, unless `output_root` has no components either.
pub open spec fn placed(
    shp: Seq<char>,
    input_root: Seq<char>,
    output_root: Seq<char>,
) -> Seq<Seq<char>> {
    let below = components(shp).skip(components(input_root).len() as int);
    if components(output_root).len() == 0 || below.len() > 0 && below[0] == root() {
        below
    } else {
        components(output_root) + without_dot(below)
    }
}

/// `out` stands under `output_root` where `shp` stands under `input_root`: it has the
/// components that `shp` has there, the last with the extension of the output format.
pub open spec fn mirrors(
    out: Seq<char>,
    shp: Seq<char>,
    input_root: Seq<char>,
    output_root: Seq<char>,
    geojsonl: bool,
) -> bool {
    components(out) == renamed_last(
        placed(shp, input_root, output_root),
        output_extension(geojsonl),
    )
}

/// Computes the output path for a given `.shp` file, mirroring the source directory
/// structure under `output_root`.
pub fn output_path_for(shp: &str, input_root: &str, output_root: &str, geojsonl: bool) -> (r:
    Result<String, AppError>)
    ensures
        match r {
            Ok(out) => output_path(shp@, input_root@, output_root@, geojsonl) == Ok::<
                Seq<char>,
                AppError<Seq<char>>,
            >(out@),
            Err(e) => output_path(shp@, input_root@, output_root@, geojsonl) == Err::<
                Seq<char>,
                AppError<Seq<char>>,
            >(e@),
        },
        r is Ok <==> components(input_root@).is_prefix_of(components(shp@)),
        r matches Ok(out) ==> mirrors(out@, shp@, input_root@, output_root@, geojsonl),
{
    match strip_prefix(shp, input_root) {
        None => {
            let mut reason = String::from_str("could not make ");
            reason.append(shp);
            reason.append(" relative to ");
            reason.append(input_root);
            Err(AppError::GeoJson { path: String::from_str(shp), reason })
        },
        Some(relative) => {
            proof {
                reveal_strlit("geojsonl");
                reveal_strlit("geojson");
            }
            let extension = if geojsonl {
                "geojsonl"
            } else {
                "geojson"
            };
            let whole = join(output_root, relative.as_str());
            let out = with_extension(whole.as_str(), extension);
            proof {
                lemma_components(relative@);
                assert(components(whole@) == placed(shp@, input_root@, output_root@));
            }
            Ok(out)
        },
    }
}

/// A file under an input root that has components is placed under the output root with
/// the components that it has behind those of the input root.
proof fn lemma_placed(shp: Seq<char>, input_root: Seq<char>, output_root: Seq<char>)
    requires
        components(input_root).len() > 0,
        components(input_root).is_prefix_of(components(shp)),
    ensures
        placed(shp, input_root, output_root) == components(output_root) + components(shp).skip(
            components(input_root).len() as int,
        ),
{
    let depth = components(input_root).len() as int;
    let below = components(shp).skip(depth);
    lemma_components(shp);
    if below.len() > 0 {
        assert(below[0] == components(shp)[depth]);
        assert(is_name(components(shp)[depth]));
        assert(below[0] != root()) by {
            assert(root()[0] == '/');
            assert(root().contains('/'));
        }
    }
    if components(output_root).len() == 0 {
        assert(components(output_root) + below =~= below);
    }
}

/// The output of a file in a directory under the input root has the same place under the
/// output root, and the same name but for the extension.
pub proof fn law_output_mirrors_the_input(
    out: Seq<char>,
    shp: Seq<char>,
    input_root: Seq<char>,
    output_root: Seq<char>,
    geojsonl: bool,
)
    requires
        0 < components(input_root).len() < components(shp).len(),
        components(input_root).is_prefix_of(components(shp)),
        file_name_of(shp) is Some,
        mirrors(out, shp, input_root, output_root, geojsonl),
    ensures
        components(out) == components(output_root) + components(shp).skip(
            components(input_root).len() as int,
        ).drop_last().push(renamed(file_name_of(shp).unwrap(), output_extension(geojsonl))),
{
    lemma_placed(shp, input_root, output_root);
    let below = components(shp).skip(components(input_root).len() as int);
    let all = components(output_root) + below;
    assert(all.last() == components(shp).last());
    assert(components(out) =~= components(output_root) + below.drop_last().push(
        renamed(file_name_of(shp).unwrap(), output_extension(geojsonl)),
    ));
}

/// Two different `.shp` files under one input root get different outputs. Two paths
/// are the same file where they have the same components. Where the input root has no
/// components, files can be given that are placed alike, such as `a.shp` and `./a.shp`:
/// of those nothing is said.
pub proof fn law_outputs_are_different(
    shp: Seq<char>,
    shp2: Seq<char>,
    input_root: Seq<char>,
    output_root: Seq<char>,
    geojsonl: bool,
    out: Seq<char>,
    out2: Seq<char>,
)
    requires
        is_shp(shp),
        is_shp(shp2),
        components(shp) != components(shp2),
        components(input_root).is_prefix_of(components(shp)),
        components(input_root).is_prefix_of(components(shp2)),
        components(input_root).len() > 0 || placed(shp, input_root, output_root) != placed(
            shp2,
            input_root,
            output_root,
        ),
        mirrors(out, shp, input_root, output_root, geojsonl),
        mirrors(out2, shp2, input_root, output_root, geojsonl),
    ensures
        components(out) != components(out2),
        out != out2,
{
    let depth = components(input_root).len() as int;
    let ext = output_extension(geojsonl);
    let (c, c2) = (components(shp), components(shp2));
    let (below, below2) = (c.skip(depth), c2.skip(depth));
    let (p, p2) = (placed(shp, input_root, output_root), placed(shp2, input_root, output_root));
    assert(c =~= components(input_root) + below);
    assert(c2 =~= components(input_root) + below2);
    assert(below != below2);
    if depth > 0 {
        lemma_placed(shp, input_root, output_root);
        lemma_placed(shp2, input_root, output_root);
        assert(below =~= p.skip(components(output_root).len() as int));
        assert(below2 =~= p2.skip(components(output_root).len() as int));
    }
    assert(p != p2);
    assert(renamed_last(p, ext).len() == p.len());
    assert(renamed_last(p2, ext).len() == p2.len());
    if p.len() == p2.len() && renamed_last(p, ext) == renamed_last(p2, ext) {
        assert(below.len() > 0 && below2.len() > 0);
        assert(p.last() == c.last());
        assert(p2.last() == c2.last());
        lemma_renamed_last_apart(p, p2, ext);
    }
}

// ── A conversion ────────────────────────────────────────────────────────────
/// Statistics produced by a single successful conversion.
#[derive(Debug, PartialEq, Eq)]
pub struct ConversionStats<T = String> {
    /// Path to the source `.shp` file.
    pub input: T,
    /// Path to the output GeoJSON / GeoJSONL file.
    pub output: T,
    /// Number of GeoJSON features written.
    pub features_written: u64,
    /// Number of records skipped (e.g., Multipatch shapes).
    pub records_skipped: u64,
    /// Wall-clock duration of the conversion, in milliseconds.
    pub duration_ms: u128,
}

impl View for ConversionStats {
    type V = ConversionStats<Seq<char>>;

    open spec fn view(&self) -> ConversionStats<Seq<char>> {
        ConversionStats {
            input: self.input@,
            output: self.output@,
            features_written: self.features_written,
            records_skipped: self.records_skipped,
            duration_ms: self.duration_ms,
        }
    }
}

/// Options controlling a single conversion run.
#[derive(Debug, PartialEq, Eq)]
pub struct ConvertOptions<T = String> {
    /// When `true`, write one Feature per line (GeoJSONL) instead of a FeatureCollection.
    pub geojsonl: bool,
    /// When `true`, overwrite an existing output file; otherwise return an error.
    pub overwrite: bool,
    /// Path to `.prj` file for reprojection to WGS84 (None = passthrough).
    pub reproject_from_prj: Option<T>,
}

impl View for ConvertOptions {
    type V = ConvertOptions<Seq<char>>;

    open spec fn view(&self) -> ConvertOptions<Seq<char>> {
        ConvertOptions {
            geojsonl: self.geojsonl,
            overwrite: self.overwrite,
            reproject_from_prj: match self.reproject_from_prj {
                Some(prj) => Some(prj@),
                None => None,
            },
        }
    }
}

/// What is being done for a conversion.
#[derive(Debug, PartialEq, Eq)]
pub enum ConvertState<T = String> {
    /// Finding out whether the output file exists.
    Starting,
    /// Creating the directory of the output file.
    CreatingDirectory { dir: T },
    /// Writing the features to the temporary file.
    Writing { tmp: T },
    /// Renaming the temporary file to the output file.
    Renaming { tmp: T, features_written: u64, records_skipped: u64 },
    /// Removing the temporary file, after a failure.
    Removing { tmp: T, error: AppError<T> },
    /// Nothing: the output file is complete.
    Done(ConversionStats<T>),
    /// Nothing: the conversion failed.
    Failed(AppError<T>),
}

impl View for ConvertState {
    type V = ConvertState<Seq<char>>;

    open spec fn view(&self) -> ConvertState<Seq<char>> {
        match self {
            ConvertState::Starting => ConvertState::Starting,
            ConvertState::CreatingDirectory { dir } => ConvertState::CreatingDirectory { dir: dir@ },
            ConvertState::Writing { tmp } => ConvertState::Writing { tmp: tmp@ },
            ConvertState::Renaming { tmp, features_written, records_skipped } =>
                ConvertState::Renaming {
                tmp: tmp@,
                features_written: *features_written,
                records_skipped: *records_skipped,
            },
            ConvertState::Removing { tmp, error } => ConvertState::Removing {
                tmp: tmp@,
                error: error@,
            },
            ConvertState::Done(stats) => ConvertState::Done(stats@),
            ConvertState::Failed(error) => ConvertState::Failed(error@),
        }
    }
}

/// What came of what was being done.
#[derive(Debug, PartialEq, Eq)]
pub enum ConvertEvent<T = String> {
    /// Whether the output file exists.
    OutputExists(bool),
    /// The directory exists now, or could not be created.
    DirectoryCreated(Result<(), T>),
    /// How many features were written and how many records skipped, or the error.
    Written(Result<(u64, u64), AppError<T>>),
    /// The file was renamed, or could not be. So many milliseconds have passed.
    Renamed { result: Result<(), T>, duration_ms: u128 },
    /// The temporary file is gone, if it ever existed.
    Removed,
}

impl View for ConvertEvent {
    type V = ConvertEvent<Seq<char>>;

    open spec fn view(&self) -> ConvertEvent<Seq<char>> {
        match self {
            ConvertEvent::OutputExists(exists) => ConvertEvent::OutputExists(*exists),
            ConvertEvent::DirectoryCreated(r) => ConvertEvent::DirectoryCreated(outcome(*r)),
            ConvertEvent::Written(r) => ConvertEvent::Written(
                match r {
                    Ok(counts) => Ok(*counts),
                    Err(e) => Err(e@),
                },
            ),
            ConvertEvent::Renamed { result, duration_ms } => ConvertEvent::Renamed {
                result: outcome(*result),
                duration_ms: *duration_ms,
            },
            ConvertEvent::Removed => ConvertEvent::Removed,
        }
    }
}

/// What is done next. An event that does not belong to the state changes nothing.
pub open spec fn next_state(
    shp: Seq<char>,
    output: Seq<char>,
    overwrite: bool,
    state: ConvertState<Seq<char>>,
    event: ConvertEvent<Seq<char>>,
) -> ConvertState<Seq<char>> {
    match (state, event) {
        (ConvertState::Starting, ConvertEvent::OutputExists(exists)) => if exists && !overwrite {
            ConvertState::Failed(AppError::OutputExists { path: output })
        } else {
            match parent_path(output) {
                Some(dir) => ConvertState::CreatingDirectory { dir },
                None => ConvertState::Writing { tmp: temporary_of(output) },
            }
        },
        (ConvertState::CreatingDirectory { dir }, ConvertEvent::DirectoryCreated(result)) =>
            match result {
            Ok(_) => ConvertState::Writing { tmp: temporary_of(output) },
            Err(source) => ConvertState::Failed(AppError::Io { path: dir, source }),
        },
        (ConvertState::Writing { tmp }, ConvertEvent::Written(result)) => match result {
            Ok(counts) => ConvertState::Renaming {
                tmp,
                features_written: counts.0,
                records_skipped: counts.1,
            },
            Err(error) => ConvertState::Removing { tmp, error },
        },
        (
            ConvertState::Renaming { tmp, features_written, records_skipped },
            ConvertEvent::Renamed { result, duration_ms },
        ) => match result {
            Ok(_) => ConvertState::Done(
                ConversionStats {
                    input: shp,
                    output,
                    features_written,
                    records_skipped,
                    duration_ms,
                },
            ),
            Err(source) => ConvertState::Removing {
                tmp,
                error: AppError::Io { path: output, source },
            },
        },
        (ConvertState::Removing { tmp: _, error }, ConvertEvent::Removed) => ConvertState::Failed(
            error,
        ),
        _ => state,
    }
}

/// Converts a single shapefile entry to GeoJSON or GeoJSONL, step by step: given what
/// is being done and what came of it, says what is done next.
///
/// The features are written to a temporary file first, which is renamed atomically on
/// success. The temporary file is removed on failure. The result is
/// [`AppError::OutputExists`] if the output already exists and `options.overwrite` is
/// `false`.
pub fn convert(
    entry: &ShapefileEntry,
    output_path: &str,
    options: &ConvertOptions,
    state: ConvertState,
    event: ConvertEvent,
) -> (r: ConvertState)
    ensures
        r@ == next_state(entry.shp@, output_path@, options.overwrite, state@, event@),
{
    match (state, event) {
        (ConvertState::Starting, ConvertEvent::OutputExists(exists)) => if exists
            && !options.overwrite {
            ConvertState::Failed(AppError::OutputExists { path: String::from_str(output_path) })
        } else {
            match parent(output_path) {
                Some(dir) => ConvertState::CreatingDirectory { dir },
                None => ConvertState::Writing { tmp: temporary_path(output_path) },
            }
        },
        (ConvertState::CreatingDirectory { dir }, ConvertEvent::DirectoryCreated(result)) =>
            match result {
            Ok(_) => ConvertState::Writing { tmp: temporary_path(output_path) },
            Err(source) => ConvertState::Failed(AppError::Io { path: dir, source }),
        },
        (ConvertState::Writing { tmp }, ConvertEvent::Written(result)) => match result {
            Ok(counts) => ConvertState::Renaming {
                tmp,
                features_written: counts.0,
                records_skipped: counts.1,
            },
            Err(error) => ConvertState::Removing { tmp, error },
        },
        (
            ConvertState::Renaming { tmp, features_written, records_skipped },
            ConvertEvent::Renamed { result, duration_ms },
        ) => match result {
            Ok(_) => ConvertState::Done(
                ConversionStats {
                    input: entry.shp.clone(),
                    output: String::from_str(output_path),
                    features_written,
                    records_skipped,
                    duration_ms,
                },
            ),
            Err(source) => ConvertState::Removing {
                tmp,
                error: AppError::Io { path: String::from_str(output_path), source },
            },
        },
        (ConvertState::Removing { tmp: _, error }, ConvertEvent::Removed) => ConvertState::Failed(
            error,
        ),
        (state, _) => state,
    }
}

/// The state after these events.
pub open spec fn state_after(
    shp: Seq<char>,
    output: Seq<char>,
    overwrite: bool,
    events: Seq<ConvertEvent<Seq<char>>>,
) -> ConvertState<Seq<char>>
    decreases events.len(),
{
    if events.len() == 0 {
        ConvertState::Starting
    } else {
        next_state(
            shp,
            output,
            overwrite,
            state_after(shp, output, overwrite, events.drop_last()),
            events.last(),
        )
    }
}

/// The conversion was in a state of this kind at some time, the present included.
pub open spec fn was_ever(
    shp: Seq<char>,
    output: Seq<char>,
    overwrite: bool,
    events: Seq<ConvertEvent<Seq<char>>>,
    kind: spec_fn(ConvertState<Seq<char>>) -> bool,
) -> bool
    decreases events.len(),
{
    kind(state_after(shp, output, overwrite, events)) || (events.len() > 0 && was_ever(
        shp,
        output,
        overwrite,
        events.drop_last(),
        kind,
    ))
}

/// The temporary file is being written.
pub open spec fn is_writing() -> spec_fn(ConvertState<Seq<char>>) -> bool {
    |s: ConvertState<Seq<char>>| s is Writing
}

/// The temporary file of `output` is being removed.
pub open spec fn is_removing(output: Seq<char>) -> spec_fn(ConvertState<Seq<char>>) -> bool {
    |s: ConvertState<Seq<char>>| s matches ConvertState::Removing { tmp, error: _ } && tmp
        == temporary_of(output)
}

/// The temporary file of `output` is being renamed.
pub open spec fn is_renaming(output: Seq<char>) -> spec_fn(ConvertState<Seq<char>>) -> bool {
    |s: ConvertState<Seq<char>>| s matches ConvertState::Renaming {
        tmp,
        features_written: _,
        records_skipped: _,
    } && tmp == temporary_of(output)
}

/// No file but the temporary one is ever written, renamed or removed.
pub proof fn law_only_the_temporary_file_is_written(
    shp: Seq<char>,
    output: Seq<char>,
    overwrite: bool,
    events: Seq<ConvertEvent<Seq<char>>>,
)
    ensures
        match state_after(shp, output, overwrite, events) {
            ConvertState::Writing { tmp } => tmp == temporary_of(output),
            ConvertState::Renaming { tmp, features_written: _, records_skipped: _ } => tmp
                == temporary_of(output),
            ConvertState::Removing { tmp, error: _ } => tmp == temporary_of(output),
            _ => true,
        },
    decreases events.len(),
{
    if events.len() > 0 {
        law_only_the_temporary_file_is_written(shp, output, overwrite, events.drop_last());
    }
}

/// A conversion that fails after it has begun to write removes the temporary file.
pub proof fn law_temporary_file_is_removed_on_failure(
    shp: Seq<char>,
    output: Seq<char>,
    overwrite: bool,
    events: Seq<ConvertEvent<Seq<char>>>,
)
    requires
        state_after(shp, output, overwrite, events) is Failed,
        was_ever(shp, output, overwrite, events, is_writing()),
    ensures
        was_ever(shp, output, overwrite, events, is_removing(output)),
{
    lemma_removed_on_failure(shp, output, overwrite, events);
}

proof fn lemma_removed_on_failure(
    shp: Seq<char>,
    output: Seq<char>,
    overwrite: bool,
    events: Seq<ConvertEvent<Seq<char>>>,
)
    ensures
        ({
            let s = state_after(shp, output, overwrite, events);
            was_ever(shp, output, overwrite, events, is_writing()) ==> {
                &&& !(s is Starting) && !(s is CreatingDirectory)
                &&& s is Failed ==> was_ever(shp, output, overwrite, events, is_removing(output))
            }
        }),
    decreases events.len(),
{
    if events.len() > 0 {
        lemma_removed_on_failure(shp, output, overwrite, events.drop_last());
        law_only_the_temporary_file_is_written(shp, output, overwrite, events.drop_last());
        reveal_with_fuel(was_ever, 2);
    }
}

/// The output file comes about by renaming the temporary one, and in no other way.
pub proof fn law_output_is_renamed_into_place(
    shp: Seq<char>,
    output: Seq<char>,
    overwrite: bool,
    events: Seq<ConvertEvent<Seq<char>>>,
)
    requires
        state_after(shp, output, overwrite, events) is Done,
    ensures
        was_ever(shp, output, overwrite, events, is_renaming(output)),
    decreases events.len(),
{
    let before = state_after(shp, output, overwrite, events.drop_last());
    reveal_with_fuel(was_ever, 2);
    if before is Done {
        law_output_is_renamed_into_place(shp, output, overwrite, events.drop_last());
    } else {
        law_only_the_temporary_file_is_written(shp, output, overwrite, events.drop_last());
    }
}

/// Without leave to overwrite, an output file that exists ends the conversion before
/// anything is done, whatever happens later.
pub proof fn law_existing_output_is_kept(
    shp: Seq<char>,
    output: Seq<char>,
    events: Seq<ConvertEvent<Seq<char>>>,
)
    requires
        events.len() > 0,
        events[0] == ConvertEvent::<Seq<char>>::OutputExists(true),
    ensures
        state_after(shp, output, false, events) == ConvertState::Failed(
            AppError::OutputExists { path: output },
        ),
        !was_ever(shp, output, false, events, is_writing()),
    decreases events.len(),
{
    reveal_with_fuel(state_after, 2);
    reveal_with_fuel(was_ever, 2);
    if events.len() > 1 {
        assert(events.drop_last()[0] == events[0]);
        law_existing_output_is_kept(shp, output, events.drop_last());
    } else {
        assert(events.drop_last() =~= Seq::empty());
    }
}

/// A conversion that may go ahead, and of which every step succeeds, ends in success,
/// with the counts of what was written and the time that it took. It may go ahead where
/// there is no output file yet, and also where there is one and overwriting is allowed.
pub proof fn law_conversion_succeeds(
    shp: Seq<char>,
    output: Seq<char>,
    overwrite: bool,
    exists_already: bool,
    features: u64,
    skipped: u64,
    ms: u128,
)
    requires
        exists_already ==> overwrite,
    ensures
        ({
            let look = ConvertEvent::<Seq<char>>::OutputExists(exists_already);
            let made = ConvertEvent::<Seq<char>>::DirectoryCreated(Ok(()));
            let wrote = ConvertEvent::<Seq<char>>::Written(Ok((features, skipped)));
            let renamed = ConvertEvent::<Seq<char>>::Renamed { result: Ok(()), duration_ms: ms };
            let events = if parent_path(output) is Some {
                seq![look, made, wrote, renamed]
            } else {
                seq![look, wrote, renamed]
            };
            state_after(shp, output, overwrite, events) == ConvertState::Done(
                ConversionStats {
                    input: shp,
                    output,
                    features_written: features,
                    records_skipped: skipped,
                    duration_ms: ms,
                },
            )
        }),
{
    let look = ConvertEvent::<Seq<char>>::OutputExists(exists_already);
    let made = ConvertEvent::<Seq<char>>::DirectoryCreated(Ok(()));
    let wrote = ConvertEvent::<Seq<char>>::Written(Ok((features, skipped)));
    let renamed = ConvertEvent::<Seq<char>>::Renamed { result: Ok(()), duration_ms: ms };
    let none = Seq::<ConvertEvent<Seq<char>>>::empty();
    let a = none.push(look);
    assert(a.drop_last() =~= none);
    assert(state_after(shp, output, overwrite, none) is Starting);
    assert(state_after(shp, output, overwrite, a) == next_state(
        shp,
        output,
        overwrite,
        ConvertState::Starting,
        look,
    ));
    let b = if parent_path(output) is Some {
        a.push(made)
    } else {
        a
    };
    if parent_path(output) is Some {
        assert(b.drop_last() =~= a);
        assert(state_after(shp, output, overwrite, b) == next_state(
            shp,
            output,
            overwrite,
            state_after(shp, output, overwrite, a),
            made,
        ));
    }
    let writing = state_after(shp, output, overwrite, b);
    assert(writing is Writing);
    let c = b.push(wrote);
    assert(c.drop_last() =~= b);
    let renaming = state_after(shp, output, overwrite, c);
    assert(renaming == next_state(shp, output, overwrite, writing, wrote));
    let d = c.push(renamed);
    assert(d.drop_last() =~= c);
    assert(state_after(shp, output, overwrite, d) == next_state(
        shp,
        output,
        overwrite,
        renaming,
        renamed,
    ));
    if parent_path(output) is Some {
        assert(d =~= seq![look, made, wrote, renamed]);
    } else {
        assert(d =~= seq![look, wrote, renamed]);
    }
}

/// A conversion that has succeeded names the files it was about, and reports the counts
/// and the time that it was told.
pub proof fn law_success_reports_what_was_written(
    shp: Seq<char>,
    output: Seq<char>,
    overwrite: bool,
    events: Seq<ConvertEvent<Seq<char>>>,
)
    ensures
        match state_after(shp, output, overwrite, events) {
            ConvertState::Renaming { tmp: _, features_written, records_skipped } =>
                events.contains(
                    ConvertEvent::Written(Ok((features_written, records_skipped))),
                ),
            ConvertState::Done(stats) => {
                &&& stats.input == shp
                &&& stats.output == output
                &&& events.contains(
                    ConvertEvent::Written(Ok((stats.features_written, stats.records_skipped))),
                )
                &&& events.contains(
                    ConvertEvent::Renamed { result: Ok(()), duration_ms: stats.duration_ms },
                )
            },
            _ => true,
        },
    decreases events.len(),
{
    if events.len() > 0 {
        let front = events.drop_last();
        law_success_reports_what_was_written(shp, output, overwrite, front);
        assert(events[events.len() - 1] == events.last());
        assert forall|e: ConvertEvent<Seq<char>>| front.contains(e) implies #[trigger] events.contains(
            e,
        ) by {
            let i = choose|i: int| 0 <= i < front.len() && front[i] == e;
            assert(events[i] == e);
        }
        match (state_after(shp, output, overwrite, front), events.last()) {
            (
                ConvertState::Renaming { tmp: _, features_written, records_skipped },
                ConvertEvent::Renamed { result: Ok(u), duration_ms },
            ) => {
                assert(u == ());
            },
            _ => {},
        }
    }
}

/// The error is what one of the events said: that the output exists and must not be
/// replaced, that its directory cannot be created, that the features could not be
/// written, or that the file could not be renamed.
pub open spec fn comes_from(
    error: AppError<Seq<char>>,
    output: Seq<char>,
    overwrite: bool,
    events: Seq<ConvertEvent<Seq<char>>>,
) -> bool {
    ||| error == AppError::OutputExists { path: output } && !overwrite && events.contains(
        ConvertEvent::OutputExists(true),
    )
    ||| error matches AppError::Io { path, source } && (parent_path(output) == Some(path)
        && events.contains(ConvertEvent::DirectoryCreated(Err(source))))
    ||| events.contains(ConvertEvent::Written(Err(error)))
    ||| error matches AppError::Io { path, source } && (path == output && exists|i: int|
        0 <= i < events.len() && (#[trigger] events[i] matches ConvertEvent::Renamed {
            result: Err(cause),
            duration_ms: _,
        } && cause == source))
}

/// A conversion fails only for a reason that it was given.
pub proof fn law_failure_has_a_reason(
    shp: Seq<char>,
    output: Seq<char>,
    overwrite: bool,
    events: Seq<ConvertEvent<Seq<char>>>,
)
    ensures
        match state_after(shp, output, overwrite, events) {
            ConvertState::CreatingDirectory { dir } => parent_path(output) == Some(dir),
            ConvertState::Removing { tmp: _, error } => comes_from(error, output, overwrite, events),
            ConvertState::Failed(error) => comes_from(error, output, overwrite, events),
            _ => true,
        },
    decreases events.len(),
{
    if events.len() > 0 {
        let front = events.drop_last();
        law_failure_has_a_reason(shp, output, overwrite, front);
        assert(events[events.len() - 1] == events.last());
        assert forall|e: ConvertEvent<Seq<char>>| #[trigger] front.contains(e) implies events.contains(
            e,
        ) by {
            let i = choose|i: int| 0 <= i < front.len() && front[i] == e;
            assert(events[i] == e);
        }
        assert forall|i: int| 0 <= i < front.len() implies #[trigger] front[i] == events[i] by {}
        let before = state_after(shp, output, overwrite, front);
        match (before, events.last()) {
            (
                ConvertState::Renaming { tmp: _, features_written: _, records_skipped: _ },
                ConvertEvent::Renamed { result: Err(source), duration_ms },
            ) => {
                assert(events[events.len() - 1] is Renamed);
            },
            _ => {},
        }
    }
}

/// A conversion that has ended stays as it ended.
pub proof fn law_ended_conversion_stays(
    shp: Seq<char>,
    output: Seq<char>,
    overwrite: bool,
    state: ConvertState<Seq<char>>,
    event: ConvertEvent<Seq<char>>,
)
    requires
        state is Done || state is Failed,
    ensures
        next_state(shp, output, overwrite, state, event) == state,
{
}

/// An error while writing or renaming ends in that very error, once the temporary file
/// is removed; one while the directory is created ends the conversion at once.
pub proof fn law_errors_are_passed_on(
    shp: Seq<char>,
    output: Seq<char>,
    overwrite: bool,
    tmp: Seq<char>,
    error: AppError<Seq<char>>,
    cause: Seq<char>,
    counts: (u64, u64),
    ms: u128,
)
    ensures
        ({
            let next = |s: ConvertState<Seq<char>>, e: ConvertEvent<Seq<char>>|
                next_state(shp, output, overwrite, s, e);
            &&& next(
                next(ConvertState::Writing { tmp }, ConvertEvent::Written(Err(error))),
                ConvertEvent::Removed,
            ) == ConvertState::Failed(error)
            &&& next(
                next(
                    ConvertState::Renaming {
                        tmp,
                        features_written: counts.0,
                        records_skipped: counts.1,
                    },
                    ConvertEvent::Renamed { result: Err(cause), duration_ms: ms },
                ),
                ConvertEvent::Removed,
            ) == ConvertState::Failed(AppError::Io { path: output, source: cause })
            &&& next(
                ConvertState::CreatingDirectory { dir: tmp },
                ConvertEvent::DirectoryCreated(Err(cause)),
            ) == ConvertState::Failed(AppError::Io { path: tmp, source: cause })
        }),
{
}

/// Where the input root has no components, a relative path is taken as it is, without
/// the `.` that may stand first, and placed under the output root. An absolute path keeps
/// its place.
pub proof fn law_output_without_input_root(
    out: Seq<char>,
    shp: Seq<char>,
    input_root: Seq<char>,
    output_root: Seq<char>,
    geojsonl: bool,
)
    requires
        components(input_root).len() == 0,
        components(output_root).len() > 0,
        file_name_of(shp) is Some,
        mirrors(out, shp, input_root, output_root, geojsonl),
    ensures
        ({
            let name = renamed(
                file_name_of(shp).unwrap(),
                if geojsonl {
                    "geojsonl"@
                } else {
                    "geojson"@
                },
            );
            let all = components(shp);
            if all[0] == root() {
                components(out) == all.drop_last().push(name)
            } else if all[0] == seq!['.'] {
                components(out) == components(output_root) + all.drop_first().drop_last().push(name)
            } else {
                components(out) == components(output_root) + all.drop_last().push(name)
            }
        }),
{
    let all = components(shp);
    assert(all.skip(0) =~= all);
    let p = placed(shp, input_root, output_root);
    let name = renamed(file_name_of(shp).unwrap(), output_extension(geojsonl));
    assert(p.last() == all.last());
    if all[0] == root() {
    } else if all[0] == seq!['.'] {
        assert(components(out) =~= components(output_root) + all.drop_first().drop_last().push(
            name,
        ));
    } else {
        assert(components(out) =~= components(output_root) + all.drop_last().push(name));
    }
}

/// Where the output path has a parent, nothing is written before that directory is known
/// to exist. Where it has none, no directory is created.
pub proof fn law_directory_is_made_before_writing(
    shp: Seq<char>,
    output: Seq<char>,
    overwrite: bool,
    events: Seq<ConvertEvent<Seq<char>>>,
)
    ensures
        was_ever(shp, output, overwrite, events, is_writing()) && parent_path(output) is Some
            ==> events.contains(ConvertEvent::DirectoryCreated(Ok(()))),
        parent_path(output) is None ==> !(state_after(shp, output, overwrite, events)
            is CreatingDirectory),
    decreases events.len(),
{
    reveal_with_fuel(was_ever, 2);
    if events.len() > 0 {
        let front = events.drop_last();
        law_directory_is_made_before_writing(shp, output, overwrite, front);
        assert(events[events.len() - 1] == events.last());
        if front.contains(ConvertEvent::DirectoryCreated(Ok(()))) {
            let i = choose|i: int|
                0 <= i < front.len() && front[i] == ConvertEvent::<Seq<char>>::DirectoryCreated(
                    Ok(()),
                );
            assert(events[i] == front[i]);
        }
        if let ConvertEvent::DirectoryCreated(Ok(u)) = events.last() {
            assert(u == ());
        }
    }
}

/// A file that is not under the input root gets no output path, and the error is about
/// that file and names the root, behind the file.
pub proof fn law_stray_file_is_named(
    shp: Seq<char>,
    input_root: Seq<char>,
    output_root: Seq<char>,
    geojsonl: bool,
)
    requires
        remainder(shp, input_root) is None,
    ensures
        output_path(shp, input_root, output_root, geojsonl) matches Err(
            AppError::GeoJson { path, reason },
        ) && path == shp && occurs(reason, shp + " relative to "@) && input_root.is_suffix_of(
            reason,
        ),
{
    let head = "could not make "@;
    let middle = shp + " relative to "@;
    lemma_middle_occurs(head, middle, input_root);
    let reason = head + shp + " relative to "@ + input_root;
    assert(head + middle =~= head + shp + " relative to "@);
    assert(input_root =~= reason.subrange(
        reason.len() - input_root.len(),
        reason.len() as int,
    ));
}

} // verus!

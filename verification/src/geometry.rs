//! From shapes to GeoJSON geometries.
//!
//! A coordinate is held as the bit pattern of its IEEE 754 double. Nothing here
//! computes with coordinates: they are checked, moved and put in order.
use vstd::prelude::*;
use vstd::string::*;

use crate::error::AppError;

verus! {

// ── Coordinates ─────────────────────────────────────────────────────────────
/// The double with this bit pattern is finite: its exponent field is not all ones.
pub open spec fn is_finite(bits: u64) -> bool {
    bits / 0x10_0000_0000_0000 % 0x800 != 0x7ff
}

/// A vertex of a shape, and a position of a geometry: two coordinates, or three.
#[derive(Debug, Clone, Copy, PartialEq, Eq, Structural)]
pub struct Position {
    pub x: u64,
    pub y: u64,
    pub z: Option<u64>,
}

/// All coordinates of `p` are finite numbers.
pub open spec fn all_finite(p: Position) -> bool {
    &&& is_finite(p.x)
    &&& is_finite(p.y)
    &&& (p.z matches Some(z) ==> is_finite(z))
}

/// Whether the double with this bit pattern is finite.
pub fn finite(bits: u64) -> (r: bool)
    ensures
        r == is_finite(bits),
{
    bits / 0x10_0000_0000_0000 % 0x800 != 0x7ff
}

/// A point with two coordinates.
#[derive(Debug, Clone, Copy, PartialEq, Eq, Structural)]
pub struct Point {
    pub x: u64,
    pub y: u64,
}

/// A point with two coordinates and a measure.
#[derive(Debug, Clone, Copy, PartialEq, Eq, Structural)]
pub struct PointM {
    pub x: u64,
    pub y: u64,
    pub m: u64,
}

/// A point with three coordinates and a measure.
#[derive(Debug, Clone, Copy, PartialEq, Eq, Structural)]
pub struct PointZ {
    pub x: u64,
    pub y: u64,
    pub z: u64,
    pub m: u64,
}

/// What a point contributes to a geometry. A measure has no place in GeoJSON.
pub trait Vertex {
    spec fn spec_position(&self) -> Position;

    fn position(&self) -> (r: Position)
        ensures
            r == self.spec_position(),
    ;
}

impl Vertex for Point {
    open spec fn spec_position(&self) -> Position {
        Position { x: self.x, y: self.y, z: None }
    }

    fn position(&self) -> (r: Position) {
        Position { x: self.x, y: self.y, z: None }
    }
}

impl Vertex for PointM {
    open spec fn spec_position(&self) -> Position {
        Position { x: self.x, y: self.y, z: None }
    }

    fn position(&self) -> (r: Position) {
        Position { x: self.x, y: self.y, z: None }
    }
}

impl Vertex for PointZ {
    open spec fn spec_position(&self) -> Position {
        Position { x: self.x, y: self.y, z: Some(self.z) }
    }

    fn position(&self) -> (r: Position) {
        Position { x: self.x, y: self.y, z: Some(self.z) }
    }
}

pub open spec fn positions<P: Vertex>(points: Seq<P>) -> Seq<Position> {
    points.map_values(|p: P| p.spec_position())
}

pub open spec fn parts_positions<P: Vertex>(parts: Seq<Vec<P>>) -> Seq<Seq<Position>> {
    parts.map_values(|part: Vec<P>| positions(part@))
}

// ── Shapes ──────────────────────────────────────────────────────────────────
/// A ring of a polygon: the outline, or a hole.
#[derive(Debug, PartialEq, Eq)]
pub enum PolygonRing<P> {
    Outer(Vec<P>),
    Inner(Vec<P>),
}

impl<P> PolygonRing<P> {
    pub open spec fn spec_points(&self) -> Vec<P> {
        match self {
            PolygonRing::Outer(points) => *points,
            PolygonRing::Inner(points) => *points,
        }
    }

    /// The points of the ring.
    pub fn points(&self) -> (r: &Vec<P>)
        ensures
            *r == self.spec_points(),
    {
        match self {
            PolygonRing::Outer(points) => points,
            PolygonRing::Inner(points) => points,
        }
    }
}

pub open spec fn rings_positions<P: Vertex>(rings: Seq<PolygonRing<P>>) -> Seq<Seq<Position>> {
    rings.map_values(|ring: PolygonRing<P>| positions(ring.spec_points()@))
}

/// For each ring, whether it is an outline.
pub open spec fn outlines<P>(rings: Seq<PolygonRing<P>>) -> Seq<bool> {
    rings.map_values(|ring: PolygonRing<P>| ring is Outer)
}

/// A record's shape.
#[derive(Debug, PartialEq, Eq)]
pub enum Shape {
    NullShape,
    Point(Point),
    PointM(PointM),
    PointZ(PointZ),
    Polyline(Vec<Vec<Point>>),
    PolylineM(Vec<Vec<PointM>>),
    PolylineZ(Vec<Vec<PointZ>>),
    Polygon(Vec<PolygonRing<Point>>),
    PolygonM(Vec<PolygonRing<PointM>>),
    PolygonZ(Vec<PolygonRing<PointZ>>),
    Multipoint(Vec<Point>),
    MultipointM(Vec<PointM>),
    MultipointZ(Vec<PointZ>),
    /// A surface in patches. It has no counterpart in GeoJSON.
    Multipatch,
}

/// The sequences one after the other.
pub open spec fn flat(parts: Seq<Seq<Position>>) -> Seq<Position>
    decreases parts.len(),
{
    if parts.len() == 0 {
        Seq::empty()
    } else {
        flat(parts.drop_last()) + parts.last()
    }
}

/// The vertices of a shape, in the order in which they are visited.
pub open spec fn vertices_of(shape: &Shape) -> Seq<Position> {
    match shape {
        Shape::NullShape => Seq::empty(),
        Shape::Point(p) => seq![p.spec_position()],
        Shape::PointM(p) => seq![p.spec_position()],
        Shape::PointZ(p) => seq![p.spec_position()],
        Shape::Polyline(parts) => flat(parts_positions(parts@)),
        Shape::PolylineM(parts) => flat(parts_positions(parts@)),
        Shape::PolylineZ(parts) => flat(parts_positions(parts@)),
        Shape::Polygon(rings) => flat(rings_positions(rings@)),
        Shape::PolygonM(rings) => flat(rings_positions(rings@)),
        Shape::PolygonZ(rings) => flat(rings_positions(rings@)),
        Shape::Multipoint(points) => positions(points@),
        Shape::MultipointM(points) => positions(points@),
        Shape::MultipointZ(points) => positions(points@),
        Shape::Multipatch => Seq::empty(),
    }
}

// ── Transforms ──────────────────────────────────────────────────────────────
/// What came of reprojecting one vertex.
#[derive(Debug, PartialEq, Eq)]
pub enum Reprojected {
    /// Longitude and latitude.
    To { x: u64, y: u64 },
    /// The projection failed, for this reason.
    Failed(String),
}

/// How the coordinates of a shape become those of its geometry.
#[derive(Debug, PartialEq, Eq)]
pub enum CoordTransform {
    /// They stay as they are.
    Passthrough,
    /// They are reprojected; this is what came of each vertex, in the order in which
    /// the vertices are visited.
    Projected(Vec<Reprojected>),
}

/// Why a shape has no geometry.
#[derive(Debug, PartialEq, Eq)]
pub enum GeometryError {
    /// A coordinate of this vertex is not a finite number.
    NonFinite(Position),
    /// A vertex cannot be reprojected.
    Projection(String),
    /// A polygon has no rings.
    NoRings,
    /// The shape is a multipatch.
    Multipatch,
}

/// The position for the vertex `p`, the `k`-th that is visited. The third
/// coordinate is never reprojected.
pub open spec fn place(p: Position, t: &CoordTransform, k: int) -> Result<Position, GeometryError> {
    if !all_finite(p) {
        Err(GeometryError::NonFinite(p))
    } else {
        match t {
            CoordTransform::Passthrough => Ok(p),
            CoordTransform::Projected(outcomes) => match outcomes@[k] {
                Reprojected::To { x, y } => Ok(Position { x, y, z: p.z }),
                Reprojected::Failed(reason) => Err(GeometryError::Projection(reason)),
            },
        }
    }
}

/// The positions for vertices of which the first is the `k`-th that is visited: or
/// the error of the first that has none.
pub open spec fn placed(s: Seq<Position>, t: &CoordTransform, k: int) -> Result<
    Seq<Position>,
    GeometryError,
>
    decreases s.len(),
{
    if s.len() == 0 {
        Ok(Seq::empty())
    } else {
        match placed(s.drop_last(), t, k) {
            Err(e) => Err(e),
            Ok(front) => match place(s.last(), t, k + s.len() - 1) {
                Err(e) => Err(e),
                Ok(p) => Ok(front.push(p)),
            },
        }
    }
}

/// The positions for the vertices of each part, in the same way.
pub open spec fn placed_parts(parts: Seq<Seq<Position>>, t: &CoordTransform, k: int) -> Result<
    Seq<Seq<Position>>,
    GeometryError,
>
    decreases parts.len(),
{
    if parts.len() == 0 {
        Ok(Seq::empty())
    } else {
        match placed_parts(parts.drop_last(), t, k) {
            Err(e) => Err(e),
            Ok(front) => match placed(parts.last(), t, k + flat(parts.drop_last()).len()) {
                Err(e) => Err(e),
                Ok(last) => Ok(front.push(last)),
            },
        }
    }
}

/// There is an outcome for each of `n` vertices from the `k`-th on.
pub open spec fn covers(t: &CoordTransform, k: int, n: int) -> bool {
    t matches CoordTransform::Projected(outcomes) ==> k + n <= outcomes@.len()
}

// ── Geometries ──────────────────────────────────────────────────────────────
/// A GeoJSON geometry.
#[derive(Debug, PartialEq, Eq)]
pub enum Geometry {
    Point(Position),
    MultiPoint(Vec<Position>),
    LineString(Vec<Position>),
    MultiLineString(Vec<Vec<Position>>),
    Polygon(Vec<Vec<Position>>),
    MultiPolygon(Vec<Vec<Vec<Position>>>),
}

/// A GeoJSON geometry, as sequences.
pub enum GeometryModel {
    Point(Position),
    MultiPoint(Seq<Position>),
    LineString(Seq<Position>),
    MultiLineString(Seq<Seq<Position>>),
    Polygon(Seq<Seq<Position>>),
    MultiPolygon(Seq<Seq<Seq<Position>>>),
}

pub open spec fn lines_view(v: Seq<Vec<Position>>) -> Seq<Seq<Position>> {
    v.map_values(|line: Vec<Position>| line@)
}

pub open spec fn polygons_view(v: Seq<Vec<Vec<Position>>>) -> Seq<Seq<Seq<Position>>> {
    v.map_values(|polygon: Vec<Vec<Position>>| lines_view(polygon@))
}

impl View for Geometry {
    type V = GeometryModel;

    open spec fn view(&self) -> GeometryModel {
        match self {
            Geometry::Point(p) => GeometryModel::Point(*p),
            Geometry::MultiPoint(v) => GeometryModel::MultiPoint(v@),
            Geometry::LineString(v) => GeometryModel::LineString(v@),
            Geometry::MultiLineString(v) => GeometryModel::MultiLineString(lines_view(v@)),
            Geometry::Polygon(v) => GeometryModel::Polygon(lines_view(v@)),
            Geometry::MultiPolygon(v) => GeometryModel::MultiPolygon(polygons_view(v@)),
        }
    }
}

/// One line is a `LineString`, any other number of lines a `MultiLineString`.
pub open spec fn lines_geometry(lines: Seq<Seq<Position>>) -> GeometryModel {
    if lines.len() == 1 {
        GeometryModel::LineString(lines[0])
    } else {
        GeometryModel::MultiLineString(lines)
    }
}

/// One polygon is a `Polygon`, any other number of polygons a `MultiPolygon`.
pub open spec fn polygons_geometry(polygons: Seq<Seq<Seq<Position>>>) -> GeometryModel {
    if polygons.len() == 1 {
        GeometryModel::Polygon(polygons[0])
    } else {
        GeometryModel::MultiPolygon(polygons)
    }
}

/// Rings grouped into polygons. An outline starts a polygon; a hole belongs to the
/// polygon before it, and starts one where there is none. Every ring is reversed:
/// outlines run clockwise in a shapefile and counterclockwise in GeoJSON.
pub open spec fn grouped(outline: Seq<bool>, rings: Seq<Seq<Position>>) -> Seq<Seq<Seq<Position>>>
    decreases rings.len(),
{
    if rings.len() == 0 {
        Seq::empty()
    } else {
        let before = grouped(outline.drop_last(), rings.drop_last());
        let ring = rings.last().reverse();
        if outline.last() || before.len() == 0 {
            before.push(seq![ring])
        } else {
            before.drop_last().push(before.last().push(ring))
        }
    }
}

/// The geometry of a polyline with these parts.
pub open spec fn polyline_geometry(parts: Seq<Seq<Position>>, t: &CoordTransform) -> Result<
    GeometryModel,
    GeometryError,
> {
    match placed_parts(parts, t, 0) {
        Err(e) => Err(e),
        Ok(lines) => Ok(lines_geometry(lines)),
    }
}

/// The geometry of a polygon with these rings.
pub open spec fn polygon_geometry(
    outline: Seq<bool>,
    rings: Seq<Seq<Position>>,
    t: &CoordTransform,
) -> Result<GeometryModel, GeometryError> {
    if rings.len() == 0 {
        Err(GeometryError::NoRings)
    } else {
        match placed_parts(rings, t, 0) {
            Err(e) => Err(e),
            Ok(moved) => Ok(polygons_geometry(grouped(outline, moved))),
        }
    }
}

pub open spec fn point_geometry(p: Position, t: &CoordTransform) -> Result<
    GeometryModel,
    GeometryError,
> {
    match place(p, t, 0) {
        Err(e) => Err(e),
        Ok(q) => Ok(GeometryModel::Point(q)),
    }
}

pub open spec fn multipoint_geometry(points: Seq<Position>, t: &CoordTransform) -> Result<
    GeometryModel,
    GeometryError,
> {
    match placed(points, t, 0) {
        Err(e) => Err(e),
        Ok(moved) => Ok(GeometryModel::MultiPoint(moved)),
    }
}

pub open spec fn known(r: Result<GeometryModel, GeometryError>) -> Result<
    Option<GeometryModel>,
    GeometryError,
> {
    match r {
        Err(e) => Err(e),
        Ok(g) => Ok(Some(g)),
    }
}

/// The geometry of a shape. A null shape has none, and that is no error.
pub open spec fn geometry_of(shape: &Shape, t: &CoordTransform) -> Result<
    Option<GeometryModel>,
    GeometryError,
> {
    match shape {
        Shape::NullShape => Ok(None),
        Shape::Point(p) => known(point_geometry(p.spec_position(), t)),
        Shape::PointM(p) => known(point_geometry(p.spec_position(), t)),
        Shape::PointZ(p) => known(point_geometry(p.spec_position(), t)),
        Shape::Polyline(parts) => known(polyline_geometry(parts_positions(parts@), t)),
        Shape::PolylineM(parts) => known(polyline_geometry(parts_positions(parts@), t)),
        Shape::PolylineZ(parts) => known(polyline_geometry(parts_positions(parts@), t)),
        Shape::Polygon(rings) => known(
            polygon_geometry(outlines(rings@), rings_positions(rings@), t),
        ),
        Shape::PolygonM(rings) => known(
            polygon_geometry(outlines(rings@), rings_positions(rings@), t),
        ),
        Shape::PolygonZ(rings) => known(
            polygon_geometry(outlines(rings@), rings_positions(rings@), t),
        ),
        Shape::Multipoint(points) => known(multipoint_geometry(positions(points@), t)),
        Shape::MultipointM(points) => known(multipoint_geometry(positions(points@), t)),
        Shape::MultipointZ(points) => known(multipoint_geometry(positions(points@), t)),
        Shape::Multipatch => Err(GeometryError::Multipatch),
    }
}

// ── Conversion ──────────────────────────────────────────────────────────────
/// Without a projection it does not matter which vertices are visited first.
proof fn lemma_placed_anywhere(s: Seq<Position>, t: &CoordTransform, a: int, b: int)
    requires
        t is Passthrough,
    ensures
        placed(s, t, a) == placed(s, t, b),
    decreases s.len(),
{
    if s.len() > 0 {
        lemma_placed_anywhere(s.drop_last(), t, a, b);
    }
}

/// An error stays an error, whatever follows.
proof fn lemma_placed_error(s: Seq<Position>, t: &CoordTransform, k: int, n: int)
    requires
        0 <= n <= s.len(),
        placed(s.take(n), t, k) is Err,
    ensures
        placed(s, t, k) == placed(s.take(n), t, k),
    decreases s.len() - n,
{
    if n < s.len() {
        assert(s.take(n + 1).drop_last() =~= s.take(n));
        lemma_placed_error(s, t, k, n + 1);
    } else {
        assert(s.take(n) =~= s);
    }
}

proof fn lemma_placed_parts_error(parts: Seq<Seq<Position>>, t: &CoordTransform, k: int, n: int)
    requires
        0 <= n <= parts.len(),
        placed_parts(parts.take(n), t, k) is Err,
    ensures
        placed_parts(parts, t, k) == placed_parts(parts.take(n), t, k),
    decreases parts.len() - n,
{
    if n < parts.len() {
        assert(parts.take(n + 1).drop_last() =~= parts.take(n));
        lemma_placed_parts_error(parts, t, k, n + 1);
    } else {
        assert(parts.take(n) =~= parts);
    }
}

proof fn lemma_flat_prefix(parts: Seq<Seq<Position>>, n: int)
    requires
        0 <= n <= parts.len(),
    ensures
        flat(parts.take(n)).len() <= flat(parts).len(),
    decreases parts.len() - n,
{
    if n < parts.len() {
        assert(parts.take(n + 1).drop_last() =~= parts.take(n));
        lemma_flat_prefix(parts, n + 1);
    } else {
        assert(parts.take(n) =~= parts);
    }
}

/// The position for one vertex, the `k`-th that is visited.
pub fn apply(p: Position, t: &CoordTransform, k: usize) -> (r: Result<Position, GeometryError>)
    requires
        covers(t, k as int, 1),
    ensures
        r == place(p, t, k as int),
{
    let z_finite = match p.z {
        Some(z) => finite(z),
        None => true,
    };
    if !finite(p.x) || !finite(p.y) || !z_finite {
        return Err(GeometryError::NonFinite(p));
    }
    match t {
        CoordTransform::Passthrough => Ok(p),
        CoordTransform::Projected(outcomes) => match &outcomes[k] {
            Reprojected::To { x, y } => Ok(Position { x: *x, y: *y, z: p.z }),
            Reprojected::Failed(reason) => Err(GeometryError::Projection(reason.clone())),
        },
    }
}

/// The position in the order of visits that lies `n` after `k`.
fn advance(t: &CoordTransform, k: usize, n: usize) -> (r: usize)
    requires
        covers(t, k as int, n as int),
    ensures
        t is Projected ==> r == k + n,
{
    match t {
        CoordTransform::Passthrough => k,
        CoordTransform::Projected(outcomes) => {
            let len: usize = outcomes.len();
            k + n
        },
    }
}

/// The positions for a run of points of which the first is the `k`-th vertex that is
/// visited.
pub fn points_to_coords<P: Vertex>(points: &Vec<P>, t: &CoordTransform, k: usize) -> (r: Result<
    Vec<Position>,
    GeometryError,
>)
    requires
        covers(t, k as int, points@.len() as int),
    ensures
        match r {
            Ok(v) => placed(positions(points@), t, k as int) == Ok::<Seq<Position>, GeometryError>(
                v@,
            ) && v@.len() == points@.len(),
            Err(e) => placed(positions(points@), t, k as int) == Err::<
                Seq<Position>,
                GeometryError,
            >(e),
        },
{
    let ghost all = positions(points@);
    let mut out: Vec<Position> = Vec::new();
    let mut i: usize = 0;
    assert(all.take(0) =~= Seq::empty());
    while i < points.len()
        invariant
            i <= points@.len(),
            covers(t, k as int, points@.len() as int),
            all == positions(points@),
            out@.len() == i,
            placed(all.take(i as int), t, k as int) == Ok::<Seq<Position>, GeometryError>(out@),
        decreases points@.len() - i,
    {
        let at: usize = advance(t, k, i);
        let p = points[i].position();
        proof {
            assert(all.take(i + 1).drop_last() =~= all.take(i as int));
            assert(all.take(i + 1).last() == p);
            assert(place(p, t, at as int) == place(p, t, k + i));
        }
        match apply(p, t, at) {
            Ok(q) => {
                out.push(q);
            },
            Err(e) => {
                proof {
                    lemma_placed_error(all, t, k as int, i + 1);
                }
                return Err(e);
            },
        }
        i = i + 1;
    }
    assert(all.take(i as int) =~= all);
    Ok(out)
}

/// The lines of a polyline, one for each part.
fn place_parts<P: Vertex>(parts: &Vec<Vec<P>>, t: &CoordTransform) -> (r: Result<
    Vec<Vec<Position>>,
    GeometryError,
>)
    requires
        covers(t, 0, flat(parts_positions(parts@)).len() as int),
    ensures
        match r {
            Ok(v) => placed_parts(parts_positions(parts@), t, 0) == Ok::<
                Seq<Seq<Position>>,
                GeometryError,
            >(lines_view(v@)) && v@.len() == parts@.len(),
            Err(e) => placed_parts(parts_positions(parts@), t, 0) == Err::<
                Seq<Seq<Position>>,
                GeometryError,
            >(e),
        },
{
    let ghost all = parts_positions(parts@);
    let mut out: Vec<Vec<Position>> = Vec::new();
    let mut k: usize = 0;
    let mut i: usize = 0;
    assert(all.take(0) =~= Seq::empty());
    assert(lines_view(out@) =~= Seq::empty());
    while i < parts.len()
        invariant
            i <= parts@.len(),
            all == parts_positions(parts@),
            covers(t, 0, flat(all).len() as int),
            t is Projected ==> k == flat(all.take(i as int)).len(),
            out@.len() == i,
            placed_parts(all.take(i as int), t, 0) == Ok::<Seq<Seq<Position>>, GeometryError>(
                lines_view(out@),
            ),
        decreases parts@.len() - i,
    {
        let ghost upto = all.take(i + 1);
        proof {
            assert(upto.drop_last() =~= all.take(i as int));
            assert(upto.last() == positions(parts@[i as int]@));
            lemma_flat_prefix(all, i + 1);
            assert(flat(upto).len() == flat(all.take(i as int)).len() + parts@[i as int]@.len());
        }
        let line = points_to_coords(&parts[i], t, k);
        proof {
            if t is Passthrough {
                lemma_placed_anywhere(
                    positions(parts@[i as int]@),
                    t,
                    k as int,
                    flat(all.take(i as int)).len() as int,
                );
            }
        }
        match line {
            Ok(v) => {
                let ghost before = lines_view(out@);
                out.push(v);
                assert(lines_view(out@) =~= before.push(v@));
            },
            Err(e) => {
                proof {
                    lemma_placed_parts_error(all, t, 0, i + 1);
                }
                return Err(e);
            },
        }
        k = advance(t, k, parts[i].len());
        i = i + 1;
    }
    assert(all.take(i as int) =~= all);
    Ok(out)
}

/// The geometry of a polyline: a line for each part.
pub fn polyline_parts_to_value<P: Vertex>(parts: &Vec<Vec<P>>, t: &CoordTransform) -> (r: Result<
    Geometry,
    GeometryError,
>)
    requires
        covers(t, 0, flat(parts_positions(parts@)).len() as int),
    ensures
        match r {
            Ok(g) => polyline_geometry(parts_positions(parts@), t) == Ok::<
                GeometryModel,
                GeometryError,
            >(g@),
            Err(e) => polyline_geometry(parts_positions(parts@), t) == Err::<
                GeometryModel,
                GeometryError,
            >(e),
        },
{
    match place_parts(parts, t) {
        Err(e) => Err(e),
        Ok(mut lines) => {
            if lines.len() == 1 {
                let ghost only = lines@[0];
                assert(lines_view(lines@)[0] == only@);
                let line = lines.pop().unwrap();
                Ok(Geometry::LineString(line))
            } else {
                Ok(Geometry::MultiLineString(lines))
            }
        },
    }
}

/// The positions in reverse order.
fn reversed(v: &Vec<Position>) -> (r: Vec<Position>)
    ensures
        r@ == v@.reverse(),
{
    let mut out: Vec<Position> = Vec::new();
    let mut i: usize = v.len();
    while i > 0
        invariant
            i <= v@.len(),
            out@.len() == v@.len() - i,
            forall|j: int| 0 <= j < out@.len() ==> out@[j] == v@[v@.len() - 1 - j],
        decreases i,
    {
        i = i - 1;
        out.push(v[i]);
    }
    assert(out@ =~= v@.reverse());
    out
}

/// Groups polygon rings into polygons, each one outline with its holes.
///
/// An `Outer` ring starts a new polygon. `Inner` rings are appended to the most
/// recent one. Rings are reversed to comply with RFC 7946.
pub fn group_rings<P: Vertex>(rings: &Vec<PolygonRing<P>>, t: &CoordTransform) -> (r: Result<
    Vec<Vec<Vec<Position>>>,
    GeometryError,
>)
    requires
        covers(t, 0, flat(rings_positions(rings@)).len() as int),
    ensures
        match r {
            Ok(v) => rings@.len() > 0 && (placed_parts(rings_positions(rings@), t, 0) matches Ok(
                moved,
            ) && polygons_view(v@) == grouped(outlines(rings@), moved)),
            Err(e) => if rings@.len() == 0 {
                e is NoRings
            } else {
                placed_parts(rings_positions(rings@), t, 0) == Err::<
                    Seq<Seq<Position>>,
                    GeometryError,
                >(e)
            },
        },
{
    if rings.len() == 0 {
        return Err(GeometryError::NoRings);
    }
    let ghost all = rings_positions(rings@);
    let ghost outline = outlines(rings@);
    let ghost mut moved: Seq<Seq<Position>> = Seq::empty();
    let mut polygons: Vec<Vec<Vec<Position>>> = Vec::new();
    let mut k: usize = 0;
    let mut i: usize = 0;
    assert(all.take(0) =~= Seq::empty());
    assert(polygons_view(polygons@) =~= Seq::empty());
    while i < rings.len()
        invariant
            i <= rings@.len(),
            all == rings_positions(rings@),
            outline == outlines(rings@),
            covers(t, 0, flat(all).len() as int),
            t is Projected ==> k == flat(all.take(i as int)).len(),
            moved.len() == i,
            placed_parts(all.take(i as int), t, 0) == Ok::<Seq<Seq<Position>>, GeometryError>(
                moved,
            ),
            polygons_view(polygons@) == grouped(outline.take(i as int), moved),
        decreases rings@.len() - i,
    {
        let ghost upto = all.take(i + 1);
        let ghost points = rings@[i as int].spec_points()@;
        proof {
            assert(upto.drop_last() =~= all.take(i as int));
            assert(upto.last() == positions(points));
            lemma_flat_prefix(all, i + 1);
            assert(flat(upto).len() == flat(all.take(i as int)).len() + points.len());
        }
        let line = points_to_coords(rings[i].points(), t, k);
        proof {
            if t is Passthrough {
                lemma_placed_anywhere(
                    positions(points),
                    t,
                    k as int,
                    flat(all.take(i as int)).len() as int,
                );
            }
        }
        match line {
            Ok(v) => {
                let ring = reversed(&v);
                let ghost before = polygons@;
                let ghost groups = polygons_view(before);
                let ghost so_far = moved;
                proof {
                    moved = moved.push(v@);
                    assert(moved.drop_last() =~= so_far);
                    assert(outline.take(i + 1).drop_last() =~= outline.take(i as int));
                    assert(outline.take(i + 1).last() == rings@[i as int] is Outer);
                }
                let starts = match &rings[i] {
                    PolygonRing::Outer(_) => true,
                    PolygonRing::Inner(_) => polygons.len() == 0,
                };
                if starts {
                    let mut polygon: Vec<Vec<Position>> = Vec::new();
                    polygon.push(ring);
                    assert(lines_view(polygon@) =~= seq![ring@]);
                    polygons.push(polygon);
                    assert(polygons_view(polygons@) =~= groups.push(seq![ring@]));
                } else {
                    let mut polygon = polygons.pop().unwrap();
                    let ghost holes = lines_view(polygon@);
                    assert(holes == groups.last());
                    polygon.push(ring);
                    assert(lines_view(polygon@) =~= holes.push(ring@));
                    polygons.push(polygon);
                    assert(polygons_view(polygons@) =~= groups.drop_last().push(holes.push(ring@)));
                }
            },
            Err(e) => {
                proof {
                    lemma_placed_parts_error(all, t, 0, i + 1);
                }
                return Err(e);
            },
        }
        k = advance(t, k, rings[i].points().len());
        i = i + 1;
    }
    assert(all.take(i as int) =~= all);
    assert(outline.take(i as int) =~= outline);
    Ok(polygons)
}

/// `Polygon` for a single polygon (with optional holes), `MultiPolygon` otherwise.
pub fn polygons_to_value(polygons: Vec<Vec<Vec<Position>>>) -> (r: Geometry)
    ensures
        r@ == polygons_geometry(polygons_view(polygons@)),
        match r@ {
            GeometryModel::Polygon(rings) => polygons@.len() == 1 && rings == lines_view(
                polygons@[0]@,
            ),
            GeometryModel::MultiPolygon(members) => polygons@.len() != 1 && members
                == polygons_view(polygons@),
            _ => false,
        },
{
    let mut polygons = polygons;
    if polygons.len() == 1 {
        let ghost only = polygons@[0];
        assert(polygons_view(polygons@)[0] == lines_view(only@));
        let polygon = polygons.pop().unwrap();
        Geometry::Polygon(polygon)
    } else {
        Geometry::MultiPolygon(polygons)
    }
}

/// The geometry of a polygon.
pub fn polygon_rings_to_value<P: Vertex>(rings: &Vec<PolygonRing<P>>, t: &CoordTransform) -> (r:
    Result<Geometry, GeometryError>)
    requires
        covers(t, 0, flat(rings_positions(rings@)).len() as int),
    ensures
        match r {
            Ok(g) => polygon_geometry(outlines(rings@), rings_positions(rings@), t) == Ok::<
                GeometryModel,
                GeometryError,
            >(g@),
            Err(e) => polygon_geometry(outlines(rings@), rings_positions(rings@), t) == Err::<
                GeometryModel,
                GeometryError,
            >(e),
        },
{
    match group_rings(rings, t) {
        Err(e) => Err(e),
        Ok(polygons) => Ok(polygons_to_value(polygons)),
    }
}

fn multipoint_to_value<P: Vertex>(points: &Vec<P>, t: &CoordTransform) -> (r: Result<
    Geometry,
    GeometryError,
>)
    requires
        covers(t, 0, points@.len() as int),
    ensures
        match r {
            Ok(g) => multipoint_geometry(positions(points@), t) == Ok::<
                GeometryModel,
                GeometryError,
            >(g@),
            Err(e) => multipoint_geometry(positions(points@), t) == Err::<
                GeometryModel,
                GeometryError,
            >(e),
        },
{
    match points_to_coords(points, t, 0) {
        Err(e) => Err(e),
        Ok(v) => Ok(Geometry::MultiPoint(v)),
    }
}

fn point_to_value(p: Position, t: &CoordTransform) -> (r: Result<Geometry, GeometryError>)
    requires
        covers(t, 0, 1),
    ensures
        match r {
            Ok(g) => point_geometry(p, t) == Ok::<GeometryModel, GeometryError>(g@),
            Err(e) => point_geometry(p, t) == Err::<GeometryModel, GeometryError>(e),
        },
{
    match apply(p, t, 0) {
        Err(e) => Err(e),
        Ok(q) => Ok(Geometry::Point(q)),
    }
}

/// Maps a shape to its GeoJSON geometry.
///
/// There is none for a null shape (`"geometry": null` in GeoJSON). Where the shape
/// is reprojected there must be an outcome for each of its vertices.
pub fn shape_to_geometry(shape: &Shape, t: &CoordTransform) -> (r: Result<
    Option<Geometry>,
    GeometryError,
>)
    requires
        covers(t, 0, vertices_of(shape).len() as int),
    ensures
        match r {
            Ok(Some(g)) => geometry_of(shape, t) == Ok::<Option<GeometryModel>, GeometryError>(
                Some(g@),
            ),
            Ok(None) => geometry_of(shape, t) == Ok::<Option<GeometryModel>, GeometryError>(None),
            Err(e) => geometry_of(shape, t) == Err::<Option<GeometryModel>, GeometryError>(e),
        },
{
    let value = match shape {
        Shape::NullShape => return Ok(None),
        Shape::Point(p) => point_to_value(p.position(), t),
        Shape::PointM(p) => point_to_value(p.position(), t),
        Shape::PointZ(p) => point_to_value(p.position(), t),
        Shape::Polyline(parts) => polyline_parts_to_value(parts, t),
        Shape::PolylineM(parts) => polyline_parts_to_value(parts, t),
        Shape::PolylineZ(parts) => polyline_parts_to_value(parts, t),
        Shape::Polygon(rings) => polygon_rings_to_value(rings, t),
        Shape::PolygonM(rings) => polygon_rings_to_value(rings, t),
        Shape::PolygonZ(rings) => polygon_rings_to_value(rings, t),
        Shape::Multipoint(points) => multipoint_to_value(points, t),
        Shape::MultipointM(points) => multipoint_to_value(points, t),
        Shape::MultipointZ(points) => multipoint_to_value(points, t),
        Shape::Multipatch => return Err(GeometryError::Multipatch),
    };
    match value {
        Err(e) => Err(e),
        Ok(g) => Ok(Some(g)),
    }
}

fn append_points<P: Vertex>(out: &mut Vec<Position>, points: &Vec<P>)
    ensures
        final(out)@ == old(out)@ + positions(points@),
{
    let ghost all = positions(points@);
    let ghost before = out@;
    let mut i: usize = 0;
    assert(before + all.take(0) =~= before);
    while i < points.len()
        invariant
            i <= points@.len(),
            all == positions(points@),
            out@ == before + all.take(i as int),
        decreases points@.len() - i,
    {
        out.push(points[i].position());
        assert(out@ =~= before + all.take(i + 1));
        i = i + 1;
    }
    assert(all.take(i as int) =~= all);
}

fn parts_vertices<P: Vertex>(parts: &Vec<Vec<P>>) -> (r: Vec<Position>)
    ensures
        r@ == flat(parts_positions(parts@)),
{
    let ghost all = parts_positions(parts@);
    let mut out: Vec<Position> = Vec::new();
    let mut i: usize = 0;
    assert(all.take(0) =~= Seq::empty());
    while i < parts.len()
        invariant
            i <= parts@.len(),
            all == parts_positions(parts@),
            out@ == flat(all.take(i as int)),
        decreases parts@.len() - i,
    {
        append_points(&mut out, &parts[i]);
        assert(all.take(i + 1).drop_last() =~= all.take(i as int));
        i = i + 1;
    }
    assert(all.take(i as int) =~= all);
    out
}

fn rings_vertices<P: Vertex>(rings: &Vec<PolygonRing<P>>) -> (r: Vec<Position>)
    ensures
        r@ == flat(rings_positions(rings@)),
{
    let ghost all = rings_positions(rings@);
    let mut out: Vec<Position> = Vec::new();
    let mut i: usize = 0;
    assert(all.take(0) =~= Seq::empty());
    while i < rings.len()
        invariant
            i <= rings@.len(),
            all == rings_positions(rings@),
            out@ == flat(all.take(i as int)),
        decreases rings@.len() - i,
    {
        append_points(&mut out, rings[i].points());
        assert(all.take(i + 1).drop_last() =~= all.take(i as int));
        i = i + 1;
    }
    assert(all.take(i as int) =~= all);
    out
}

fn run_vertices<P: Vertex>(points: &Vec<P>) -> (r: Vec<Position>)
    ensures
        r@ == positions(points@),
{
    let mut out: Vec<Position> = Vec::new();
    append_points(&mut out, points);
    assert(out@ =~= positions(points@));
    out
}

/// The vertices of a shape, in the order in which they are visited: what there is to
/// reproject.
pub fn vertices(shape: &Shape) -> (r: Vec<Position>)
    ensures
        r@ == vertices_of(shape),
{
    match shape {
        Shape::NullShape => Vec::new(),
        Shape::Point(p) => vec![p.position()],
        Shape::PointM(p) => vec![p.position()],
        Shape::PointZ(p) => vec![p.position()],
        Shape::Polyline(parts) => parts_vertices(parts),
        Shape::PolylineM(parts) => parts_vertices(parts),
        Shape::PolylineZ(parts) => parts_vertices(parts),
        Shape::Polygon(rings) => rings_vertices(rings),
        Shape::PolygonM(rings) => rings_vertices(rings),
        Shape::PolygonZ(rings) => rings_vertices(rings),
        Shape::Multipoint(points) => run_vertices(points),
        Shape::MultipointM(points) => run_vertices(points),
        Shape::MultipointZ(points) => run_vertices(points),
        Shape::Multipatch => Vec::new(),
    }
}

/// The error to report for a shape of the file at `path`. `coordinates` is what the
/// user reads of the coordinates that are not finite, such as `x=NaN, y=0`.
pub fn geometry_error(e: GeometryError, path: &str, coordinates: &str) -> (r: AppError)
    ensures
        r@ == (match e {
            GeometryError::NonFinite(_) => AppError::GeoJson {
                path: path@,
                reason: "non-finite coordinate: "@ + coordinates@,
            },
            GeometryError::Projection(reason) => AppError::Projection {
                path: path@,
                reason: reason@,
            },
            GeometryError::NoRings => AppError::GeoJson {
                path: path@,
                reason: "polygon has no rings"@,
            },
            GeometryError::Multipatch => AppError::GeoJson {
                path: path@,
                reason: "Multipatch shape should have been filtered before geometry conversion"@,
            },
        }),
{
    let path = String::from_str(path);
    match e {
        GeometryError::NonFinite(_) => {
            let mut reason = String::from_str("non-finite coordinate: ");
            reason.append(coordinates);
            AppError::GeoJson { path, reason }
        },
        GeometryError::Projection(reason) => AppError::Projection { path, reason },
        GeometryError::NoRings => AppError::GeoJson {
            path,
            reason: String::from_str("polygon has no rings"),
        },
        GeometryError::Multipatch => AppError::GeoJson {
            path,
            reason: String::from_str(
                "Multipatch shape should have been filtered before geometry conversion",
            ),
        },
    }
}

// ── What holds of every shape ───────────────────────────────────────────────
/// All vertices in a sequence have finite coordinates.
pub open spec fn every_finite(s: Seq<Position>) -> bool {
    forall|i: int| 0 <= i < s.len() ==> all_finite(#[trigger] s[i])
}

proof fn lemma_placed_passthrough(s: Seq<Position>, t: &CoordTransform, k: int)
    requires
        t is Passthrough,
    ensures
        every_finite(s) ==> placed(s, t, k) == Ok::<Seq<Position>, GeometryError>(s),
        !every_finite(s) ==> placed(s, t, k) is Err,
    decreases s.len(),
{
    if s.len() > 0 {
        let front = s.drop_last();
        lemma_placed_passthrough(front, t, k);
        assert(front.push(s.last()) =~= s);
        if every_finite(front) && all_finite(s.last()) {
            assert forall|i: int| 0 <= i < s.len() implies all_finite(#[trigger] s[i]) by {
                if i < front.len() {
                    assert(s[i] == front[i]);
                }
            }
        } else if every_finite(s) {
            assert forall|i: int| 0 <= i < front.len() implies all_finite(#[trigger] front[i]) by {
                assert(front[i] == s[i]);
            }
            assert(all_finite(s[s.len() - 1]));
        }
    } else {
        assert(s =~= Seq::empty());
    }
}

proof fn lemma_every_finite_concat(a: Seq<Position>, b: Seq<Position>)
    ensures
        every_finite(a + b) == (every_finite(a) && every_finite(b)),
{
    let s = a + b;
    if every_finite(a) && every_finite(b) {
        assert forall|i: int| 0 <= i < s.len() implies all_finite(#[trigger] s[i]) by {
            if i < a.len() {
                assert(s[i] == a[i]);
            } else {
                assert(s[i] == b[i - a.len()]);
            }
        }
    }
    if every_finite(s) {
        assert forall|i: int| 0 <= i < a.len() implies all_finite(#[trigger] a[i]) by {
            assert(a[i] == s[i]);
        }
        assert forall|i: int| 0 <= i < b.len() implies all_finite(#[trigger] b[i]) by {
            assert(b[i] == s[a.len() + i]);
        }
    }
}

proof fn lemma_placed_parts_passthrough(parts: Seq<Seq<Position>>, t: &CoordTransform, k: int)
    requires
        t is Passthrough,
    ensures
        every_finite(flat(parts)) ==> placed_parts(parts, t, k) == Ok::<
            Seq<Seq<Position>>,
            GeometryError,
        >(parts),
        !every_finite(flat(parts)) ==> placed_parts(parts, t, k) is Err,
    decreases parts.len(),
{
    if parts.len() > 0 {
        let front = parts.drop_last();
        lemma_placed_parts_passthrough(front, t, k);
        lemma_placed_passthrough(parts.last(), t, k + flat(front).len());
        lemma_every_finite_concat(flat(front), parts.last());
        assert(front.push(parts.last()) =~= parts);
    } else {
        assert(parts =~= Seq::empty());
    }
}

/// A shape without rings to form a polygon, or with no counterpart in GeoJSON.
pub open spec fn is_degenerate(shape: &Shape) -> bool {
    match shape {
        Shape::Polygon(rings) => rings@.len() == 0,
        Shape::PolygonM(rings) => rings@.len() == 0,
        Shape::PolygonZ(rings) => rings@.len() == 0,
        Shape::Multipatch => true,
        _ => false,
    }
}

/// Without reprojection a shape is converted exactly where all its coordinates are
/// finite numbers, as RFC 7946 requires, unless it is a multipatch or a polygon
/// without rings.
pub proof fn law_finite_shapes_convert(shape: &Shape, t: &CoordTransform)
    requires
        t is Passthrough,
    ensures
        geometry_of(shape, t) is Ok <==> every_finite(vertices_of(shape)) && !is_degenerate(shape),
{
    match shape {
        Shape::NullShape => {},
        Shape::Point(p) => {
            assert(vertices_of(shape)[0] == p.spec_position());
        },
        Shape::PointM(p) => {
            assert(vertices_of(shape)[0] == p.spec_position());
        },
        Shape::PointZ(p) => {
            assert(vertices_of(shape)[0] == p.spec_position());
        },
        Shape::Polyline(parts) => {
            lemma_placed_parts_passthrough(parts_positions(parts@), t, 0);
        },
        Shape::PolylineM(parts) => {
            lemma_placed_parts_passthrough(parts_positions(parts@), t, 0);
        },
        Shape::PolylineZ(parts) => {
            lemma_placed_parts_passthrough(parts_positions(parts@), t, 0);
        },
        Shape::Polygon(rings) => {
            lemma_placed_parts_passthrough(rings_positions(rings@), t, 0);
        },
        Shape::PolygonM(rings) => {
            lemma_placed_parts_passthrough(rings_positions(rings@), t, 0);
        },
        Shape::PolygonZ(rings) => {
            lemma_placed_parts_passthrough(rings_positions(rings@), t, 0);
        },
        Shape::Multipoint(points) => {
            lemma_placed_passthrough(positions(points@), t, 0);
        },
        Shape::MultipointM(points) => {
            lemma_placed_passthrough(positions(points@), t, 0);
        },
        Shape::MultipointZ(points) => {
            lemma_placed_passthrough(positions(points@), t, 0);
        },
        Shape::Multipatch => {},
    }
}

/// The positions of a geometry, in order.
pub open spec fn geometry_positions(g: GeometryModel) -> Seq<Position> {
    match g {
        GeometryModel::Point(p) => seq![p],
        GeometryModel::MultiPoint(v) => v,
        GeometryModel::LineString(v) => v,
        GeometryModel::MultiLineString(v) => flat(v),
        GeometryModel::Polygon(v) => flat(v),
        GeometryModel::MultiPolygon(v) => flat(all_rings(v)),
    }
}

/// Without reprojection, points and lines keep their coordinates unchanged and in
/// their order.
pub proof fn law_coordinates_pass_through(shape: &Shape, t: &CoordTransform)
    requires
        t is Passthrough,
        !(shape is Polygon || shape is PolygonM || shape is PolygonZ),
    ensures
        geometry_of(shape, t) matches Ok(Some(g)) ==> geometry_positions(g) == vertices_of(shape),
{
    match shape {
        Shape::Polyline(parts) => {
            lemma_lines_keep(parts_positions(parts@), t);
        },
        Shape::PolylineM(parts) => {
            lemma_lines_keep(parts_positions(parts@), t);
        },
        Shape::PolylineZ(parts) => {
            lemma_lines_keep(parts_positions(parts@), t);
        },
        Shape::Multipoint(points) => {
            lemma_placed_passthrough(positions(points@), t, 0);
        },
        Shape::MultipointM(points) => {
            lemma_placed_passthrough(positions(points@), t, 0);
        },
        Shape::MultipointZ(points) => {
            lemma_placed_passthrough(positions(points@), t, 0);
        },
        _ => {},
    }
}

proof fn lemma_lines_keep(parts: Seq<Seq<Position>>, t: &CoordTransform)
    requires
        t is Passthrough,
    ensures
        polyline_geometry(parts, t) matches Ok(g) ==> geometry_positions(g) == flat(parts),
{
    lemma_placed_parts_passthrough(parts, t, 0);
    if parts.len() == 1 {
        assert(parts.drop_last() =~= Seq::empty());
        assert(flat(parts) =~= parts[0]);
    }
}

/// The rings of the polygons, one polygon after the other.
pub open spec fn all_rings(polygons: Seq<Seq<Seq<Position>>>) -> Seq<Seq<Position>>
    decreases polygons.len(),
{
    if polygons.len() == 0 {
        Seq::empty()
    } else {
        all_rings(polygons.drop_last()) + polygons.last()
    }
}

/// Every ring is reversed: `r` reads backwards what `s` reads forwards.
pub open spec fn each_reversed(r: Seq<Seq<Position>>, s: Seq<Seq<Position>>) -> bool {
    &&& r.len() == s.len()
    &&& forall|i: int| 0 <= i < s.len() ==> #[trigger] r[i] == s[i].reverse()
}

/// Grouping keeps all rings, in their order, each of them reversed.
pub proof fn law_rings_are_kept_and_reversed(outline: Seq<bool>, rings: Seq<Seq<Position>>)
    requires
        outline.len() == rings.len(),
    ensures
        each_reversed(all_rings(grouped(outline, rings)), rings),
    decreases rings.len(),
{
    if rings.len() > 0 {
        let front = rings.drop_last();
        law_rings_are_kept_and_reversed(outline.drop_last(), front);
        let before = grouped(outline.drop_last(), front);
        let ring = rings.last().reverse();
        let after = grouped(outline, rings);
        if outline.last() || before.len() == 0 {
            assert(after.drop_last() =~= before);
            assert(all_rings(after) =~= all_rings(before).push(ring));
        } else {
            assert(after.drop_last() =~= before.drop_last());
            assert(all_rings(after) =~= all_rings(before).push(ring));
        }
        let r = all_rings(after);
        assert forall|i: int| 0 <= i < rings.len() implies #[trigger] r[i] == rings[i].reverse() by {
            if i < front.len() {
                assert(r[i] == all_rings(before)[i]);
                assert(front[i] == rings[i]);
            }
        }
    }
}

/// The rings of a geometry, one after the other.
pub open spec fn geometry_rings(g: GeometryModel) -> Seq<Seq<Position>> {
    match g {
        GeometryModel::Polygon(rings) => rings,
        GeometryModel::MultiPolygon(polygons) => all_rings(polygons),
        _ => Seq::empty(),
    }
}

/// Without reprojection the geometry of a polygon has the polygon's rings, in their
/// order and with their coordinates, each run through backwards: clockwise outlines
/// become counterclockwise, and counterclockwise holes clockwise.
pub proof fn law_polygon_rings_run_backwards(
    outline: Seq<bool>,
    rings: Seq<Seq<Position>>,
    t: &CoordTransform,
)
    requires
        outline.len() == rings.len(),
        t is Passthrough,
    ensures
        polygon_geometry(outline, rings, t) matches Ok(g) ==> each_reversed(
            geometry_rings(g),
            rings,
        ),
{
    lemma_placed_parts_passthrough(rings, t, 0);
    law_rings_are_kept_and_reversed(outline, rings);
    let polygons = grouped(outline, rings);
    if polygons.len() == 1 {
        assert(polygons.drop_last() =~= Seq::empty());
        reveal_with_fuel(all_rings, 2);
        assert(all_rings(polygons) =~= polygons[0]);
    }
}

/// How many of the rings are outlines.
pub open spec fn outline_count(outline: Seq<bool>) -> nat
    decreases outline.len(),
{
    if outline.len() == 0 {
        0
    } else {
        outline_count(outline.drop_last()) + (if outline.last() {
            1nat
        } else {
            0nat
        })
    }
}

/// There is one polygon for each outline, and one more where a hole comes first.
pub proof fn law_one_polygon_per_outline(outline: Seq<bool>, rings: Seq<Seq<Position>>)
    requires
        outline.len() == rings.len(),
        rings.len() > 0,
    ensures
        grouped(outline, rings).len() == outline_count(outline) + (if outline[0] {
            0nat
        } else {
            1nat
        }),
    decreases rings.len(),
{
    if rings.len() > 1 {
        law_one_polygon_per_outline(outline.drop_last(), rings.drop_last());
    } else {
        assert(outline.drop_last() =~= Seq::empty());
        assert(rings.drop_last() =~= Seq::empty());
        assert(outline_count(outline.drop_last()) == 0);
        assert(grouped(outline.drop_last(), rings.drop_last()).len() == 0);
    }
}

// ── What a geometry depicts ─────────────────────────────────────────────────
/// What a shape draws, by the coordinates of its points. Measures are left out.
pub enum Drawing {
    Nothing,
    Single(Position),
    Scatter(Seq<Position>),
    Lines(Seq<Seq<Position>>),
    /// Rings, each with whether it is an outline.
    Rings(Seq<(bool, Seq<Position>)>),
    Surface,
}

pub open spec fn flat_run(points: Seq<Point>) -> Seq<Position> {
    Seq::new(points.len(), |i: int| Position { x: points[i].x, y: points[i].y, z: None })
}

pub open spec fn measured_run(points: Seq<PointM>) -> Seq<Position> {
    Seq::new(points.len(), |i: int| Position { x: points[i].x, y: points[i].y, z: None })
}

pub open spec fn raised_run(points: Seq<PointZ>) -> Seq<Position> {
    Seq::new(
        points.len(),
        |i: int| Position { x: points[i].x, y: points[i].y, z: Some(points[i].z) },
    )
}

/// What a shape draws.
pub open spec fn drawing(shape: &Shape) -> Drawing {
    match shape {
        Shape::NullShape => Drawing::Nothing,
        Shape::Point(p) => Drawing::Single(Position { x: p.x, y: p.y, z: None }),
        Shape::PointM(p) => Drawing::Single(Position { x: p.x, y: p.y, z: None }),
        Shape::PointZ(p) => Drawing::Single(Position { x: p.x, y: p.y, z: Some(p.z) }),
        Shape::Multipoint(points) => Drawing::Scatter(flat_run(points@)),
        Shape::MultipointM(points) => Drawing::Scatter(measured_run(points@)),
        Shape::MultipointZ(points) => Drawing::Scatter(raised_run(points@)),
        Shape::Polyline(parts) => Drawing::Lines(
            Seq::new(parts@.len(), |i: int| flat_run(parts@[i]@)),
        ),
        Shape::PolylineM(parts) => Drawing::Lines(
            Seq::new(parts@.len(), |i: int| measured_run(parts@[i]@)),
        ),
        Shape::PolylineZ(parts) => Drawing::Lines(
            Seq::new(parts@.len(), |i: int| raised_run(parts@[i]@)),
        ),
        Shape::Polygon(rings) => Drawing::Rings(
            Seq::new(
                rings@.len(),
                |i: int|
                    match rings@[i] {
                        PolygonRing::Outer(points) => (true, flat_run(points@)),
                        PolygonRing::Inner(points) => (false, flat_run(points@)),
                    },
            ),
        ),
        Shape::PolygonM(rings) => Drawing::Rings(
            Seq::new(
                rings@.len(),
                |i: int|
                    match rings@[i] {
                        PolygonRing::Outer(points) => (true, measured_run(points@)),
                        PolygonRing::Inner(points) => (false, measured_run(points@)),
                    },
            ),
        ),
        Shape::PolygonZ(rings) => Drawing::Rings(
            Seq::new(
                rings@.len(),
                |i: int|
                    match rings@[i] {
                        PolygonRing::Outer(points) => (true, raised_run(points@)),
                        PolygonRing::Inner(points) => (false, raised_run(points@)),
                    },
            ),
        ),
        Shape::Multipatch => Drawing::Surface,
    }
}

/// The runs of positions that are drawn, one after the other.
pub open spec fn runs_of(d: Drawing) -> Seq<Seq<Position>> {
    match d {
        Drawing::Nothing => Seq::empty(),
        Drawing::Single(p) => seq![seq![p]],
        Drawing::Scatter(run) => seq![run],
        Drawing::Lines(runs) => runs,
        Drawing::Rings(rings) => Seq::new(rings.len(), |i: int| rings[i].1),
        Drawing::Surface => Seq::empty(),
    }
}

/// How many positions stand before the `i`-th run.
pub open spec fn drawn_before(runs: Seq<Seq<Position>>, i: int) -> int
    decreases i,
{
    if i <= 0 {
        0
    } else {
        drawn_before(runs, i - 1) + runs[i - 1].len()
    }
}

/// `q` is where `p` belongs, the `k`-th position that is drawn: `p` itself, or the
/// longitude and latitude that came of reprojecting it, over the same height.
pub open spec fn belongs(q: Position, p: Position, t: &CoordTransform, k: int) -> bool {
    match t {
        CoordTransform::Passthrough => q.x == p.x && q.y == p.y && q.z == p.z,
        CoordTransform::Projected(outcomes) => match outcomes@[k] {
            Reprojected::To { x, y } => q.x == x && q.y == y && q.z == p.z,
            Reprojected::Failed(_) => false,
        },
    }
}

/// `v` goes where `run` goes, from the `k`-th position that is drawn on.
pub open spec fn goes_along(
    v: Seq<Position>,
    run: Seq<Position>,
    t: &CoordTransform,
    k: int,
) -> bool {
    &&& v.len() == run.len()
    &&& forall|j: int| 0 <= j < run.len() ==> belongs(#[trigger] v[j], run[j], t, k + j)
}

/// `v` goes where `run` goes, but from its end to its beginning.
pub open spec fn goes_back(
    v: Seq<Position>,
    run: Seq<Position>,
    t: &CoordTransform,
    k: int,
) -> bool {
    &&& v.len() == run.len()
    &&& forall|j: int|
        0 <= j < run.len() ==> belongs(
            #[trigger] v[j],
            run[run.len() - 1 - j],
            t,
            k + run.len() - 1 - j,
        )
}

/// `starts` lists the rings at which a polygon starts, in their order: the outlines, and
/// the first ring in any case.
pub open spec fn lists_starts(starts: Seq<int>, rings: Seq<(bool, Seq<Position>)>) -> bool {
    &&& forall|a: int, b: int|
        0 <= a < b < starts.len() ==> #[trigger] starts[a] < #[trigger] starts[b]
    &&& forall|a: int| 0 <= a < starts.len() ==> 0 <= #[trigger] starts[a] < rings.len()
    &&& forall|i: int|
        0 <= i < rings.len() ==> (i == 0 || (#[trigger] rings[i]).0) == starts.contains(i)
}

/// Where the polygon that starts at `starts[m]` ends.
pub open spec fn end_of(starts: Seq<int>, m: int, n: int) -> int {
    if m + 1 < starts.len() {
        starts[m + 1]
    } else {
        n
    }
}

/// The polygon consists of the rings from `from` to `to`, each run through backwards.
pub open spec fn encloses(
    polygon: Seq<Seq<Position>>,
    rings: Seq<(bool, Seq<Position>)>,
    from: int,
    to: int,
    t: &CoordTransform,
) -> bool {
    &&& polygon.len() == to - from
    &&& forall|j: int|
        0 <= j < to - from ==> goes_back(
            #[trigger] polygon[j],
            rings[from + j].1,
            t,
            drawn_before(runs_of(Drawing::Rings(rings)), from + j),
        )
}

/// The geometry shows what is drawn.
pub open spec fn depicts(g: Option<GeometryModel>, d: Drawing, t: &CoordTransform) -> bool {
    match d {
        Drawing::Nothing => g is None,
        Drawing::Single(p) => g matches Some(GeometryModel::Point(q)) && belongs(q, p, t, 0),
        Drawing::Scatter(run) => g matches Some(GeometryModel::MultiPoint(v)) && goes_along(
            v,
            run,
            t,
            0,
        ),
        Drawing::Lines(runs) => if runs.len() == 1 {
            g matches Some(GeometryModel::LineString(v)) && goes_along(v, runs[0], t, 0)
        } else {
            &&& g matches Some(GeometryModel::MultiLineString(lines))
            &&& lines.len() == runs.len()
            &&& forall|i: int|
                0 <= i < runs.len() ==> goes_along(
                    #[trigger] lines[i],
                    runs[i],
                    t,
                    drawn_before(runs, i),
                )
        },
        Drawing::Rings(rings) => exists|starts: Seq<int>|
            #[trigger] lists_starts(starts, rings) && if starts.len() == 1 {
                g matches Some(GeometryModel::Polygon(polygon)) && encloses(
                    polygon,
                    rings,
                    0,
                    rings.len() as int,
                    t,
                )
            } else {
                &&& g matches Some(GeometryModel::MultiPolygon(polygons))
                &&& polygons.len() == starts.len()
                &&& forall|m: int|
                    0 <= m < starts.len() ==> encloses(
                        #[trigger] polygons[m],
                        rings,
                        starts[m],
                        end_of(starts, m, rings.len() as int),
                        t,
                    )
            },
        Drawing::Surface => false,
    }
}

proof fn lemma_placed_goes_along(s: Seq<Position>, t: &CoordTransform, k: int)
    ensures
        placed(s, t, k) matches Ok(v) ==> goes_along(v, s, t, k),
    decreases s.len(),
{
    if s.len() > 0 {
        lemma_placed_goes_along(s.drop_last(), t, k);
        if let Ok(v) = placed(s, t, k) {
            let front = placed(s.drop_last(), t, k).unwrap();
            assert forall|j: int| 0 <= j < s.len() implies belongs(
                #[trigger] v[j],
                s[j],
                t,
                k + j,
            ) by {
                if j < s.len() - 1 {
                    assert(v[j] == front[j]);
                    assert(s.drop_last()[j] == s[j]);
                }
            }
        }
    }
}

proof fn lemma_drawn_before(runs: Seq<Seq<Position>>, i: int)
    requires
        0 <= i <= runs.len(),
    ensures
        drawn_before(runs, i) == flat(runs.take(i)).len(),
    decreases i,
{
    if i > 0 {
        lemma_drawn_before(runs, i - 1);
        assert(runs.take(i).drop_last() =~= runs.take(i - 1));
    }
}

proof fn lemma_placed_parts_go_along(parts: Seq<Seq<Position>>, t: &CoordTransform)
    ensures
        placed_parts(parts, t, 0) matches Ok(lines) ==> {
            &&& lines.len() == parts.len()
            &&& forall|i: int|
                0 <= i < parts.len() ==> goes_along(
                    #[trigger] lines[i],
                    parts[i],
                    t,
                    drawn_before(parts, i),
                )
        },
    decreases parts.len(),
{
    if parts.len() > 0 {
        let front = parts.drop_last();
        lemma_placed_parts_go_along(front, t);
        lemma_placed_goes_along(parts.last(), t, flat(front).len() as int);
        if let Ok(lines) = placed_parts(parts, t, 0) {
            let before = placed_parts(front, t, 0).unwrap();
            assert forall|i: int| 0 <= i < parts.len() implies goes_along(
                #[trigger] lines[i],
                parts[i],
                t,
                drawn_before(parts, i),
            ) by {
                lemma_drawn_before(parts, i);
                if i < front.len() {
                    assert(lines[i] == before[i]);
                    assert(front[i] == parts[i]);
                    lemma_drawn_before(front, i);
                    assert(front.take(i) =~= parts.take(i));
                } else {
                    assert(parts.take(i) =~= front);
                }
            }
        }
    }
}

/// The rings at which a polygon starts.
spec fn starts_of(rings: Seq<(bool, Seq<Position>)>) -> Seq<int>
    decreases rings.len(),
{
    if rings.len() == 0 {
        Seq::empty()
    } else {
        let front = starts_of(rings.drop_last());
        if rings.len() == 1 || rings.last().0 {
            front.push(rings.len() - 1)
        } else {
            front
        }
    }
}

#[verifier::spinoff_prover]
proof fn lemma_starts(rings: Seq<(bool, Seq<Position>)>)
    ensures
        lists_starts(starts_of(rings), rings),
        rings.len() > 0 ==> starts_of(rings).len() > 0 && starts_of(rings)[0] == 0,
    decreases rings.len(),
{
    let starts = starts_of(rings);
    if rings.len() > 0 {
        let front = rings.drop_last();
        let before = starts_of(front);
        let last = rings.len() - 1;
        lemma_starts(front);
        assert forall|a: int| 0 <= a < starts.len() implies 0 <= #[trigger] starts[a]
            < rings.len() by {
            if a < before.len() {
                assert(starts[a] == before[a]);
            }
        }
        assert forall|a: int, b: int| 0 <= a < b < starts.len() implies #[trigger] starts[a]
            < #[trigger] starts[b] by {
            assert(starts[a] == before[a]);
            if b < before.len() {
                assert(starts[b] == before[b]);
            }
        }
        assert forall|i: int| 0 <= i < rings.len() implies (i == 0 || (#[trigger] rings[i]).0)
            == starts.contains(i) by {
            if i < last {
                assert(front[i] == rings[i]);
                if before.contains(i) {
                    let a = choose|a: int| 0 <= a < before.len() && before[a] == i;
                    assert(starts[a] == i);
                } else if starts.contains(i) {
                    let a = choose|a: int| 0 <= a < starts.len() && starts[a] == i;
                    assert(before[a] == i);
                }
            } else if rings.len() == 1 || rings.last().0 {
                assert(starts[before.len() as int] == i);
            } else if starts.contains(i) {
                let a = choose|a: int| 0 <= a < starts.len() && starts[a] == i;
                assert(before[a] < front.len());
            }
        }
    }
}

/// Which rings grouping puts where.
#[verifier::spinoff_prover]
proof fn lemma_grouped_by_starts(
    outline: Seq<bool>,
    moved: Seq<Seq<Position>>,
    rings: Seq<(bool, Seq<Position>)>,
)
    requires
        outline.len() == moved.len(),
        rings.len() == moved.len(),
        forall|i: int| 0 <= i < rings.len() ==> (#[trigger] rings[i]).0 == outline[i],
    ensures
        ({
            let starts = starts_of(rings);
            let polygons = grouped(outline, moved);
            &&& polygons.len() == starts.len()
            &&& forall|m: int|
                0 <= m < starts.len() ==> {
                    &&& (#[trigger] polygons[m]).len() == end_of(starts, m, moved.len() as int)
                        - starts[m]
                    &&& forall|j: int|
                        0 <= j < polygons[m].len() ==> #[trigger] polygons[m][j] == moved[starts[m]
                            + j].reverse()
                }
        }),
    decreases moved.len(),
{
    if moved.len() > 0 {
        let n = moved.len() as int;
        let (front, rest) = (moved.drop_last(), rings.drop_last());
        let before = grouped(outline.drop_last(), front);
        let polygons = grouped(outline, moved);
        let (starts, old_starts) = (starts_of(rings), starts_of(rest));
        assert forall|i: int| 0 <= i < rest.len() implies (#[trigger] rest[i]).0
            == outline.drop_last()[i] by {
            assert(rest[i] == rings[i]);
        }
        lemma_grouped_by_starts(outline.drop_last(), front, rest);
        lemma_starts(rest);
        lemma_starts(rings);
        assert(rings[n - 1].0 == outline[n - 1]);
        assert forall|m: int| 0 <= m < starts.len() implies {
            &&& (#[trigger] polygons[m]).len() == end_of(starts, m, n) - starts[m]
            &&& forall|j: int|
                0 <= j < polygons[m].len() ==> #[trigger] polygons[m][j] == moved[starts[m]
                    + j].reverse()
        } by {
            let started = n == 1 || outline.last();
            if started && m == old_starts.len() {
                assert(polygons[m] == seq![moved.last().reverse()]);
            } else if m < old_starts.len() - 1 || started {
                assert(polygons[m] == before[m]);
                assert(starts[m] == old_starts[m]);
                assert forall|j: int| 0 <= j < polygons[m].len() implies #[trigger] polygons[m][j]
                    == moved[starts[m] + j].reverse() by {
                    assert(before[m][j] == front[starts[m] + j].reverse());
                    if m + 1 < old_starts.len() {
                        assert(old_starts[m + 1] < rest.len());
                    }
                    assert(front[starts[m] + j] == moved[starts[m] + j]);
                }
            } else {
                assert(m == old_starts.len() - 1);
                let last = before.last();
                assert(polygons[m] == last.push(moved.last().reverse()));
                assert(before[m] == last);
                assert(last.len() == front.len() - starts[m]);
                assert forall|j: int| 0 <= j < polygons[m].len() implies #[trigger] polygons[m][j]
                    == moved[starts[m] + j].reverse() by {
                    if j < last.len() {
                        assert(before[m][j] == front[starts[m] + j].reverse());
                    }
                }
            }
        }
    }
}

proof fn lemma_polygon_depicts(
    outline: Seq<bool>,
    parts: Seq<Seq<Position>>,
    rings: Seq<(bool, Seq<Position>)>,
    t: &CoordTransform,
)
    requires
        outline.len() == parts.len(),
        rings.len() == parts.len(),
        forall|i: int| 0 <= i < rings.len() ==> (#[trigger] rings[i]) == (outline[i], parts[i]),
    ensures
        polygon_geometry(outline, parts, t) matches Ok(g) ==> depicts(
            Some(g),
            Drawing::Rings(rings),
            t,
        ),
{
    if let Ok(g) = polygon_geometry(outline, parts, t) {
        let moved = placed_parts(parts, t, 0).unwrap();
        lemma_placed_parts_go_along(parts, t);
        let polygons = grouped(outline, moved);
        let starts = starts_of(rings);
        lemma_starts(rings);
        lemma_grouped_by_starts(outline, moved, rings);
        let runs = runs_of(Drawing::Rings(rings));
        assert(runs =~= parts);
        let n = rings.len() as int;
        assert forall|m: int| 0 <= m < starts.len() implies encloses(
            #[trigger] polygons[m],
            rings,
            starts[m],
            end_of(starts, m, n),
            t,
        ) by {
            let from = starts[m];
            if m + 1 < starts.len() {
                assert(starts[m + 1] < n);
            }
            assert forall|j: int| 0 <= j < polygons[m].len() implies goes_back(
                #[trigger] polygons[m][j],
                rings[from + j].1,
                t,
                drawn_before(runs, from + j),
            ) by {
                let i = from + j;
                let run = rings[i].1;
                assert(rings[i] == (outline[i], parts[i]));
                assert(goes_along(moved[i], parts[i], t, drawn_before(parts, i)));
                assert(polygons[m][j] == moved[i].reverse());
                let k = drawn_before(runs, i);
                assert forall|q: int| 0 <= q < run.len() implies belongs(
                    #[trigger] polygons[m][j][q],
                    run[run.len() - 1 - q],
                    t,
                    k + run.len() - 1 - q,
                ) by {
                    let at = run.len() - 1 - q;
                    assert(belongs(moved[i][at], parts[i][at], t, k + at));
                }
            }
        }
        if starts.len() == 1 {
            assert(encloses(polygons[0], rings, starts[0], end_of(starts, 0, n), t));
        }
        assert(lists_starts(starts, rings));
    }
}

/// Where a shape has a geometry, that is of the same kind and shows the very points of
/// the shape: points and lines in their order, and rings backwards. Without reprojection
/// the coordinates are those of the points; with it they are, point by point, the
/// longitude and latitude that came of reprojecting the point, and its own height. One
/// line is a line, several are a multiple one. A polygon starts at each outline and takes
/// in the holes behind it, up to the next outline; one is a polygon, several are a
/// multiple one with as many members.
pub proof fn law_geometry_depicts_the_shape(shape: &Shape, t: &CoordTransform)
    ensures
        geometry_of(shape, t) matches Ok(g) ==> depicts(g, drawing(shape), t),
{
    match shape {
        Shape::Point(p) => law_point_goes_where_it_belongs(p.spec_position(), t),
        Shape::PointM(p) => law_point_goes_where_it_belongs(p.spec_position(), t),
        Shape::PointZ(p) => law_point_goes_where_it_belongs(p.spec_position(), t),
        Shape::Polyline(parts) => {
            let d = Seq::new(parts@.len(), |i: int| flat_run(parts@[i]@));
            lemma_placed_parts_go_along(parts_positions(parts@), t);
            assert(parts_positions(parts@) =~~= d);
        },
        Shape::PolylineM(parts) => {
            let d = Seq::new(parts@.len(), |i: int| measured_run(parts@[i]@));
            lemma_placed_parts_go_along(parts_positions(parts@), t);
            assert(parts_positions(parts@) =~~= d);
        },
        Shape::PolylineZ(parts) => {
            let d = Seq::new(parts@.len(), |i: int| raised_run(parts@[i]@));
            lemma_placed_parts_go_along(parts_positions(parts@), t);
            assert(parts_positions(parts@) =~~= d);
        },
        Shape::Polygon(rings) => {
            let d = drawing(shape)->Rings_0;
            assert forall|i: int| 0 <= i < d.len() implies (#[trigger] d[i]) == (
                outlines(rings@)[i],
                rings_positions(rings@)[i],
            ) by {
                assert(d[i].1 =~= rings_positions(rings@)[i]);
            }
            lemma_polygon_depicts(outlines(rings@), rings_positions(rings@), d, t);
        },
        Shape::PolygonM(rings) => {
            let d = drawing(shape)->Rings_0;
            assert forall|i: int| 0 <= i < d.len() implies (#[trigger] d[i]) == (
                outlines(rings@)[i],
                rings_positions(rings@)[i],
            ) by {
                assert(d[i].1 =~= rings_positions(rings@)[i]);
            }
            lemma_polygon_depicts(outlines(rings@), rings_positions(rings@), d, t);
        },
        Shape::PolygonZ(rings) => {
            let d = drawing(shape)->Rings_0;
            assert forall|i: int| 0 <= i < d.len() implies (#[trigger] d[i]) == (
                outlines(rings@)[i],
                rings_positions(rings@)[i],
            ) by {
                assert(d[i].1 =~= rings_positions(rings@)[i]);
            }
            lemma_polygon_depicts(outlines(rings@), rings_positions(rings@), d, t);
        },
        Shape::Multipoint(points) => {
            lemma_placed_goes_along(positions(points@), t, 0);
            assert(positions(points@) =~= flat_run(points@));
        },
        Shape::MultipointM(points) => {
            lemma_placed_goes_along(positions(points@), t, 0);
            assert(positions(points@) =~= measured_run(points@));
        },
        Shape::MultipointZ(points) => {
            lemma_placed_goes_along(positions(points@), t, 0);
            assert(positions(points@) =~= raised_run(points@));
        },
        _ => {},
    }
}

/// A point goes where it came to be reprojected, at its own height, and stays where it is
/// without reprojection.
pub proof fn law_point_goes_where_it_belongs(p: Position, t: &CoordTransform)
    ensures
        point_geometry(p, t) matches Ok(g) ==> (g matches GeometryModel::Point(q) && belongs(
            q,
            p,
            t,
            0,
        )),
{
}

/// A double is finite unless all bits of its exponent are set, whatever its sign and its
/// fraction.
pub proof fn law_finite_is_about_the_exponent(bits: u64)
    ensures
        is_finite(bits) == (bits & 0x7ff0_0000_0000_0000 != 0x7ff0_0000_0000_0000),
{
    assert((bits / 0x10_0000_0000_0000 % 0x800 != 0x7ff) == (bits & 0x7ff0_0000_0000_0000
        != 0x7ff0_0000_0000_0000)) by (bit_vector);
}

/// The vertices of a shape are the points that it draws, run by run.
pub proof fn law_vertices_are_the_points_in_order(shape: &Shape)
    ensures
        ({
            let runs = runs_of(drawing(shape));
            let v = vertices_of(shape);
            &&& v.len() == drawn_before(runs, runs.len() as int)
            &&& forall|i: int, j: int|
                0 <= i < runs.len() && 0 <= j < runs[i].len() ==> v[drawn_before(runs, i) + j]
                    == #[trigger] runs[i][j]
        }),
{
    let runs = runs_of(drawing(shape));
    let v = vertices_of(shape);
    assert(v =~= flat(runs)) by {
        match shape {
            Shape::Polyline(parts) => {
                assert(parts_positions(parts@) =~~= runs);
            },
            Shape::PolylineM(parts) => {
                assert(parts_positions(parts@) =~~= runs);
            },
            Shape::PolylineZ(parts) => {
                assert(parts_positions(parts@) =~~= runs);
            },
            Shape::Polygon(rings) => {
                assert(rings_positions(rings@) =~~= runs);
            },
            Shape::PolygonM(rings) => {
                assert(rings_positions(rings@) =~~= runs);
            },
            Shape::PolygonZ(rings) => {
                assert(rings_positions(rings@) =~~= runs);
            },
            Shape::NullShape => {},
            Shape::Multipatch => {},
            _ => {
                assert(runs.drop_last() =~= Seq::empty());
                assert(flat(runs.drop_last()) =~= Seq::empty());
                assert(runs.last() == runs[0]);
                assert(flat(runs) =~= runs[0]);
                assert(v =~= runs[0]);
            },
        }
    }
    lemma_drawn_before(runs, runs.len() as int);
    assert(runs.take(runs.len() as int) =~= runs);
    assert forall|i: int, j: int| 0 <= i < runs.len() && 0 <= j < runs[i].len() implies
        v[drawn_before(runs, i) + j] == #[trigger] runs[i][j] by {
        lemma_drawn_before(runs, i);
        lemma_flat_index(runs, i, j);
    }
}

proof fn lemma_flat_index(runs: Seq<Seq<Position>>, i: int, j: int)
    requires
        0 <= i < runs.len(),
        0 <= j < runs[i].len(),
    ensures
        flat(runs.take(i)).len() + j < flat(runs).len(),
        flat(runs)[flat(runs.take(i)).len() + j] == runs[i][j],
    decreases runs.len(),
{
    if i < runs.len() - 1 {
        let front = runs.drop_last();
        assert(front.take(i) =~= runs.take(i));
        lemma_flat_index(front, i, j);
    } else {
        assert(runs.take(i) =~= runs.drop_last());
    }
}

/// A point can be placed: all its coordinates are finite numbers, and it could be
/// reprojected, if it is.
pub open spec fn has_place(p: Position, t: &CoordTransform, k: int) -> bool {
    &&& is_finite(p.x)
    &&& is_finite(p.y)
    &&& (p.z matches Some(z) ==> is_finite(z))
    &&& (t matches CoordTransform::Projected(outcomes) ==> outcomes@[k] is To)
}

/// `e` says why the point cannot be placed.
pub open spec fn explains(e: GeometryError, p: Position, t: &CoordTransform, k: int) -> bool {
    if is_finite(p.x) && is_finite(p.y) && (p.z matches Some(z) ==> is_finite(z)) {
        t matches CoordTransform::Projected(outcomes) && outcomes@[k] matches Reprojected::Failed(
            reason,
        ) && e == GeometryError::Projection(reason)
    } else {
        e == GeometryError::NonFinite(p)
    }
}

/// The `k`-th point is the first that cannot be placed, and `e` says why.
pub open spec fn fails_at(
    e: GeometryError,
    v: Seq<Position>,
    t: &CoordTransform,
    from: int,
    k: int,
) -> bool {
    &&& 0 <= k < v.len()
    &&& forall|j: int| 0 <= j < k ==> has_place(#[trigger] v[j], t, from + j)
    &&& !has_place(v[k], t, from + k)
    &&& explains(e, v[k], t, from + k)
}

proof fn lemma_placed_or_not(s: Seq<Position>, t: &CoordTransform, from: int)
    ensures
        match placed(s, t, from) {
            Ok(_) => forall|j: int|
                0 <= j < s.len() ==> has_place(#[trigger] s[j], t, from + j),
            Err(e) => exists|k: int| #[trigger] fails_at(e, s, t, from, k),
        },
    decreases s.len(),
{
    if s.len() > 0 {
        let front = s.drop_last();
        lemma_placed_or_not(front, t, from);
        match placed(front, t, from) {
            Err(e) => {
                let k = choose|k: int| #[trigger] fails_at(e, front, t, from, k);
                assert forall|j: int| 0 <= j < k implies has_place(
                    #[trigger] s[j],
                    t,
                    from + j,
                ) by {
                    assert(front[j] == s[j]);
                }
                assert(front[k] == s[k]);
                assert(fails_at(e, s, t, from, k));
            },
            Ok(_) => {
                let k = s.len() - 1;
                assert forall|j: int| 0 <= j < k implies has_place(
                    #[trigger] s[j],
                    t,
                    from + j,
                ) by {
                    assert(front[j] == s[j]);
                }
                if let Err(e) = placed(s, t, from) {
                    assert(s[k] == s.last());
                    assert(fails_at(e, s, t, from, k));
                }
            },
        }
    }
}

proof fn lemma_placed_concat(a: Seq<Position>, b: Seq<Position>, t: &CoordTransform, k: int)
    ensures
        match placed(a, t, k) {
            Err(e) => placed(a + b, t, k) == Err::<Seq<Position>, GeometryError>(e),
            Ok(_) => match placed(b, t, k + a.len()) {
                Err(e) => placed(a + b, t, k) == Err::<Seq<Position>, GeometryError>(e),
                Ok(_) => placed(a + b, t, k) is Ok,
            },
        },
    decreases b.len(),
{
    if b.len() > 0 {
        assert((a + b).drop_last() =~= a + b.drop_last());
        lemma_placed_concat(a, b.drop_last(), t, k);
    } else {
        assert(a + b =~= a);
    }
}

proof fn lemma_placed_parts_flat(parts: Seq<Seq<Position>>, t: &CoordTransform)
    ensures
        match placed_parts(parts, t, 0) {
            Err(e) => placed(flat(parts), t, 0) == Err::<Seq<Position>, GeometryError>(e),
            Ok(_) => placed(flat(parts), t, 0) is Ok,
        },
    decreases parts.len(),
{
    if parts.len() > 0 {
        let front = parts.drop_last();
        lemma_placed_parts_flat(front, t);
        lemma_placed_concat(flat(front), parts.last(), t, 0);
    }
}

/// A shape has a geometry exactly where all its points can be placed, unless it is a
/// multipatch or a polygon without rings. Where it has none, the error is about the first
/// point that cannot be placed.
pub proof fn law_conversion_fails_at_the_first_bad_point(shape: &Shape, t: &CoordTransform)
    ensures
        match drawing(shape) {
            Drawing::Surface => geometry_of(shape, t) == Err::<
                Option<GeometryModel>,
                GeometryError,
            >(GeometryError::Multipatch),
            Drawing::Rings(rings) => rings.len() == 0 ==> geometry_of(shape, t) == Err::<
                Option<GeometryModel>,
                GeometryError,
            >(GeometryError::NoRings),
            _ => true,
        },
        !is_degenerate(shape) ==> match geometry_of(shape, t) {
            Ok(_) => forall|j: int|
                0 <= j < vertices_of(shape).len() ==> has_place(
                    #[trigger] vertices_of(shape)[j],
                    t,
                    j,
                ),
            Err(e) => exists|k: int| #[trigger] fails_at(e, vertices_of(shape), t, 0, k),
        },
        is_degenerate(shape) == match drawing(shape) {
            Drawing::Surface => true,
            Drawing::Rings(rings) => rings.len() == 0,
            _ => false,
        },
{
    let v = vertices_of(shape);
    lemma_placed_or_not(v, t, 0);
    match shape {
        Shape::Polyline(parts) => lemma_placed_parts_flat(parts_positions(parts@), t),
        Shape::PolylineM(parts) => lemma_placed_parts_flat(parts_positions(parts@), t),
        Shape::PolylineZ(parts) => lemma_placed_parts_flat(parts_positions(parts@), t),
        Shape::Polygon(rings) => lemma_placed_parts_flat(rings_positions(rings@), t),
        Shape::PolygonM(rings) => lemma_placed_parts_flat(rings_positions(rings@), t),
        Shape::PolygonZ(rings) => lemma_placed_parts_flat(rings_positions(rings@), t),
        Shape::NullShape => {},
        Shape::Multipatch => {},
        Shape::Multipoint(_) => {},
        Shape::MultipointM(_) => {},
        Shape::MultipointZ(_) => {},
        _ => {
            assert(v.drop_last() =~= Seq::empty());
            assert(placed(v.drop_last(), t, 0) is Ok);
            assert(v.last() == v[0]);
            assert(placed(v, t, 0) is Err ==> place(v[0], t, 0) is Err);
        },
    }
    assert(!is_degenerate(shape) ==> match geometry_of(shape, t) {
        Ok(_) => forall|j: int| 0 <= j < v.len() ==> has_place(#[trigger] v[j], t, j),
        Err(e) => exists|k: int| #[trigger] fails_at(e, v, t, 0, k),
    }) by {
        if geometry_of(shape, t) is Ok {
            assert forall|j: int| 0 <= j < v.len() implies has_place(#[trigger] v[j], t, j) by {
                assert(has_place(v[j], t, 0 + j));
            }
        }
    }
}

} // verus!

//! Which coordinate reference systems need no reprojection.
use vstd::prelude::*;
use vstd::string::*;

use crate::error::AppError;
use crate::interactive::is_digit;
use crate::text::{
    all_ascii, begins_with, chars_of, contains_text, find_from, lemma_first_at, matches_at, occurs,
    occurs_at, trim, trimmed, upper_text, uppercased,
};

verus! {

/// The WKT, in upper case, describes a projected CRS.
pub open spec fn is_projected(upper: Seq<char>) -> bool {
    ||| "PROJCS["@.is_prefix_of(upper)
    ||| "PROJCRS["@.is_prefix_of(upper)
    ||| "PROJECTEDCRS["@.is_prefix_of(upper)
}

/// The WKT, in upper case, describes a CRS that is bound to another by a
/// transformation. What it says of WGS84 is about the other.
pub open spec fn is_bound(upper: Seq<char>) -> bool {
    "BOUNDCRS["@.is_prefix_of(upper)
}

/// The WKT, in upper case, describes a geocentric, derived or local CRS.
pub open spec fn is_not_geographic(upper: Seq<char>) -> bool {
    ||| "GEOCCS["@.is_prefix_of(upper)
    ||| "FITTED_CS["@.is_prefix_of(upper)
    ||| "LOCAL_CS["@.is_prefix_of(upper)
    ||| "ENGCRS["@.is_prefix_of(upper)
    ||| ("GEODCRS["@.is_prefix_of(upper) || "GEOGCRS["@.is_prefix_of(upper)) && (occurs(
        upper,
        "CARTESIAN"@,
    ) || occurs(upper, "DERIVINGCONVERSION["@))
}

/// The WKT, in upper case, describes a compound of CRSs of which one is projected or
/// bound.
pub open spec fn has_projected_part(upper: Seq<char>) -> bool {
    ("COMPD_CS["@.is_prefix_of(upper) || "COMPOUNDCRS["@.is_prefix_of(upper)) && {
        ||| occurs(upper, "PROJCS["@)
        ||| occurs(upper, "PROJCRS["@)
        ||| occurs(upper, "PROJECTEDCRS["@)
        ||| occurs(upper, "BOUNDCRS["@)
    }
}

/// What stands at `i` in `upper` follows `word`.
pub open spec fn follows(upper: Seq<char>, word: Seq<char>, i: int) -> bool {
    i >= word.len() && upper.subrange(i - word.len(), i) == word
}

/// What stands at `i` in `upper` is not the indicator but something longer: a code that
/// goes on with another digit, or the name of the sphere that stands in for the WGS84
/// ellipsoid in web maps.
pub open spec fn goes_on(upper: Seq<char>, indicator: Seq<char>, i: int) -> bool {
    let end = i + indicator.len();
    if indicator.first() == '"' {
        end < upper.len() && is_digit(upper[end])
    } else {
        occurs_at(upper, "_MAJOR_AUXILIARY_SPHERE"@, end)
    }
}

/// The datum is named, in a spelling that is no indicator.
pub open spec fn names_datum(upper: Seq<char>) -> bool {
    ||| occurs(upper, "WORLD_GEODETIC_SYSTEM_1984"@)
    ||| occurs(upper, "WGS_84"@)
    ||| occurs(upper, "WGS-84"@)
    ||| occurs(upper, "WGS1984"@)
    ||| occurs(upper, "WGS 1984"@)
}

/// What stands at `i` in `upper` is no name of the CRS: it is part of `TOWGS84`, the
/// shift from another datum, or the name of an ellipsoid, which other datums share, in
/// a text that does not name the datum.
pub open spec fn is_aside(upper: Seq<char>, i: int) -> bool {
    ||| follows(upper, "TO"@, i)
    ||| !names_datum(upper) && {
        ||| follows(upper, "ELLPS="@, i)
        ||| follows(upper, "SPHEROID[\""@, i)
        ||| follows(upper, "ELLIPSOID[\""@, i)
    }
}

/// `indicator` stands at `i` in `upper`, and says something of the CRS itself: it is
/// not aside, nor the beginning of something else.
pub open spec fn indicates(upper: Seq<char>, indicator: Seq<char>, i: int) -> bool {
    &&& occurs_at(upper, indicator, i)
    &&& !is_aside(upper, i)
    &&& !goes_on(upper, indicator, i)
}

/// `indicator` stands somewhere in `upper` and says something of the CRS itself.
pub open spec fn indicated(upper: Seq<char>, indicator: Seq<char>) -> bool {
    exists|i: int| indicates(upper, indicator, i)
}

/// The WKT, in upper case, describes a WGS84 geographic CRS: it is not that of a CRS of
/// another kind, and holds at least one WGS84 indicator.
pub open spec fn names_wgs84(upper: Seq<char>) -> bool {
    &&& !is_projected(upper)
    &&& !is_bound(upper)
    &&& !is_not_geographic(upper)
    &&& !has_projected_part(upper)
    &&& {
        ||| indicated(upper, "WGS_1984"@)
        ||| indicated(upper, "WGS 84"@)
        ||| indicated(upper, "WGS84"@)
        ||| indicated(upper, "GCS_WGS_1984"@)
        ||| indicated(upper, "WORLD GEODETIC SYSTEM 1984"@)
        ||| indicated(upper, "\"EPSG\",\"4326\""@)
        ||| indicated(upper, "\"EPSG\",4326"@)
    }
}

/// Whether what stands at `at` follows `word`.
fn preceded_by(upper: &Vec<char>, word: &str, at: usize) -> (r: bool)
    requires
        at <= upper@.len(),
    ensures
        r == follows(upper@, word@, at as int),
{
    let w = chars_of(word);
    let len: usize = w.len();
    if at < len {
        return false;
    }
    assert(upper@.subrange(at - len, at as int) =~= upper@.subrange(at - len, (at - len) + len));
    matches_at(upper, &w, at - len)
}

/// Whether the indicator that stands at `at` says something of the CRS itself, given
/// whether the datum is named.
fn indicates_at(upper: &Vec<char>, indicator: &Vec<char>, at: usize, datum: bool) -> (r: bool)
    requires
        indicator@.len() > 0,
        occurs_at(upper@, indicator@, at as int),
        datum == names_datum(upper@),
    ensures
        r == indicates(upper@, indicator@, at as int),
{
    let len: usize = upper.len();
    let end: usize = at + indicator.len();
    let longer: bool = if indicator[0] == '"' {
        end < len && '0' <= upper[end] && upper[end] <= '9'
    } else {
        let sphere = chars_of("_MAJOR_AUXILIARY_SPHERE");
        sphere.len() <= len - end && matches_at(upper, &sphere, end)
    };
    if longer || preceded_by(upper, "TO", at) {
        return false;
    }
    datum || !(preceded_by(upper, "ELLPS=", at) || preceded_by(upper, "SPHEROID[\"", at)
        || preceded_by(upper, "ELLIPSOID[\"", at))
}

/// Whether `indicator` stands somewhere and says something of the CRS itself, given
/// whether the datum is named.
fn is_indicated(upper: &Vec<char>, indicator: &str, datum: bool) -> (r: bool)
    requires
        indicator@.len() > 0,
        datum == names_datum(upper@),
    ensures
        r == indicated(upper@, indicator@),
{
    let pat = chars_of(indicator);
    let len: usize = upper.len();
    let mut at: usize = 0;
    loop
        invariant
            pat@ == indicator@,
            len == upper@.len(),
            indicator@.len() > 0,
            datum == names_datum(upper@),
            at <= len,
            forall|j: int| 0 <= j < at ==> !#[trigger] indicates(upper@, indicator@, j),
        decreases len - at,
    {
        let found = find_from(upper, &pat, at);
        proof {
            lemma_first_at(upper@, indicator@, at as int);
        }
        match found {
            None => {
                assert forall|j: int| !#[trigger] indicates(upper@, indicator@, j) by {
                    if at <= j {
                        assert(!occurs_at(upper@, indicator@, j));
                    }
                }
                return false;
            },
            Some(i) => {
                if indicates_at(upper, &pat, i, datum) {
                    return true;
                }
                at = i + 1;
            },
        }
    }
}

/// Whether a WKT that is given in upper case describes a WGS84 geographic CRS.
pub fn upper_case_is_wgs84(upper: &str) -> (r: bool)
    ensures
        r == names_wgs84(upper@),
{
    // A projected CRS is NOT WGS84 geographic even if it's based on WGS84.
    if begins_with(upper, "PROJCS[") || begins_with(upper, "PROJCRS[") || begins_with(
        upper,
        "PROJECTEDCRS[",
    ) || begins_with(upper, "BOUNDCRS[") {
        return false;
    }
    if begins_with(upper, "GEOCCS[") || begins_with(upper, "FITTED_CS[") || begins_with(
        upper,
        "LOCAL_CS[",
    ) || begins_with(upper, "ENGCRS[") {
        return false;
    }
    if (begins_with(upper, "GEODCRS[") || begins_with(upper, "GEOGCRS[")) && (contains_text(
        upper,
        "CARTESIAN",
    ) || contains_text(upper, "DERIVINGCONVERSION[")) {
        return false;
    }
    if (begins_with(upper, "COMPD_CS[") || begins_with(upper, "COMPOUNDCRS[")) && (contains_text(
        upper,
        "PROJCS[",
    ) || contains_text(upper, "PROJCRS[") || contains_text(upper, "PROJECTEDCRS[")
        || contains_text(upper, "BOUNDCRS[")) {
        return false;
    }
    proof {
        reveal_strlit("WGS_1984");
        reveal_strlit("WGS 84");
        reveal_strlit("WGS84");
        reveal_strlit("GCS_WGS_1984");
        reveal_strlit("WORLD GEODETIC SYSTEM 1984");
        reveal_strlit("\"EPSG\",\"4326\"");
        reveal_strlit("\"EPSG\",4326");
    }
    let datum = contains_text(upper, "WORLD_GEODETIC_SYSTEM_1984") || contains_text(upper, "WGS_84")
        || contains_text(upper, "WGS-84") || contains_text(upper, "WGS1984") || contains_text(
        upper,
        "WGS 1984",
    );
    let v = chars_of(upper);
    is_indicated(&v, "WGS_1984", datum) || is_indicated(&v, "WGS 84", datum) || is_indicated(
        &v,
        "WGS84",
        datum,
    ) || is_indicated(&v, "GCS_WGS_1984", datum) || is_indicated(
        &v,
        "WORLD GEODETIC SYSTEM 1984",
        datum,
    ) || is_indicated(&v, "\"EPSG\",\"4326\"", datum) || is_indicated(
        &v,
        "\"EPSG\",4326",
        datum,
    )
}

/// Heuristic: returns `true` if WKT describes a WGS84 geographic CRS.
///
/// Biased toward false negatives (safe: worst case is an unnecessary identity
/// transform). Projected CRS based on WGS84 are correctly identified as *not* WGS84
/// so that the re-projection step is applied.
pub fn is_wgs84(wkt: &str) -> (r: bool)
    ensures
        r == names_wgs84(uppercased(wkt@)),
        all_ascii(wkt@) ==> r == names_wgs84(upper_text(wkt@)),
{
    let upper = wkt.to_uppercase();
    upper_case_is_wgs84(upper.as_str())
}

/// The CRS that coordinates are reprojected to.
pub const TARGET_CRS: &'static str = "EPSG:4326";

/// A reprojection from a source CRS to WGS84.
#[derive(Debug, PartialEq, Eq)]
pub struct Reprojector {
    /// The source CRS, as WKT.
    pub source_crs: String,
}

/// The CRS that the text of a `.prj` file asks to reproject from; none where it is
/// WGS84 already.
pub open spec fn source_crs(text: Seq<char>) -> Option<Seq<char>> {
    if names_wgs84(uppercased(trimmed(text))) {
        None
    } else {
        Some(trimmed(text))
    }
}

/// Where the text of a `.prj` file is written in ASCII, nothing is reprojected exactly
/// if it is WGS84 with the letters `a` to `z` in upper case.
pub open spec fn ascii_settles(text: Seq<char>, passes: bool) -> bool {
    all_ascii(trimmed(text)) ==> passes == names_wgs84(upper_text(trimmed(text)))
}

impl Reprojector {
    /// Creates a reprojector from what came of reading a `.prj` file.
    ///
    /// The result is `Ok(None)` if the CRS described by the file is already WGS84 (no
    /// reprojection needed), `Ok(Some(Self))` with the source CRS otherwise, and `Err`
    /// on file read failure.
    pub fn from_prj(prj_path: &str, read: Result<String, String>) -> (r: Result<
        Option<Self>,
        AppError,
    >)
        ensures
            match read {
                Ok(text) => match r {
                    Ok(Some(crs)) => source_crs(text@) == Some(crs.source_crs@),
                    Ok(None) => source_crs(text@) is None,
                    Err(_) => false,
                },
                Err(cause) => r matches Err(e) && e@ == (AppError::Io {
                    path: prj_path@,
                    source: cause@,
                }),
            },
            read matches Ok(text) ==> ascii_settles(text@, r matches Ok(None)),
    {
        match read {
            Err(cause) => Err(AppError::Io { path: String::from_str(prj_path), source: cause }),
            Ok(text) => {
                let wkt = trim(text.as_str());
                if is_wgs84(wkt) {
                    Ok(None)
                } else {
                    Ok(Some(Reprojector { source_crs: String::from_str(wkt) }))
                }
            },
        }
    }
}

/// Resolves the coordinate transform for a shapefile, given its `.prj` file, if it is
/// to be reprojected from one, and what came of reading it: none where the
/// coordinates pass through unchanged.
pub fn resolve_transform(prj: Option<(String, Result<String, String>)>) -> (r: Result<
    Option<Reprojector>,
    AppError,
>)
    ensures
        match prj {
            None => r matches Ok(None),
            Some((_, Ok(text))) => match r {
                Ok(Some(crs)) => source_crs(text@) == Some(crs.source_crs@),
                Ok(None) => source_crs(text@) is None,
                Err(_) => false,
            },
            Some((path, Err(cause))) => r matches Err(e) && e@ == (AppError::Io {
                path: path@,
                source: cause@,
            }),
        },
        prj matches Some((_, Ok(text))) ==> ascii_settles(text@, r matches Ok(None)),
{
    match prj {
        None => Ok(None),
        Some((path, read)) => Reprojector::from_prj(path.as_str(), read),
    }
}

/// The error to report where no projection can be set up for a `.prj` file, or where
/// one fails on a shapefile.
pub fn projection_error(path: &str, cause: String) -> (r: AppError)
    ensures
        r@ == (AppError::Projection { path: path@, reason: cause@ }),
{
    AppError::Projection { path: String::from_str(path), reason: cause }
}

/// A projected CRS is never taken for WGS84, whatever else its WKT holds.
pub proof fn law_projected_crs_is_reprojected(upper: Seq<char>, more: Seq<char>)
    requires
        upper == "PROJCS["@ + more || upper == "PROJCRS["@ + more,
    ensures
        !names_wgs84(upper),
{
    if upper == "PROJCS["@ + more {
        assert("PROJCS["@ =~= upper.subrange(0, "PROJCS["@.len() as int));
    } else {
        assert("PROJCRS["@ =~= upper.subrange(0, "PROJCRS["@.len() as int));
    }
}

/// The case of ASCII letters makes no difference: a text in upper case stays as it is.
pub proof fn law_case_makes_no_difference(wkt: Seq<char>)
    requires
        all_ascii(wkt),
    ensures
        all_ascii(upper_text(wkt)),
        names_wgs84(upper_text(upper_text(wkt))) == names_wgs84(upper_text(wkt)),
{
    assert forall|i: int| 0 <= i < wkt.len() implies (#[trigger] upper_text(wkt)[i]) as int
        <= 0x7f by {
        assert(wkt[i] as int <= 0x7f);
    }
    assert(upper_text(upper_text(wkt)) =~= upper_text(wkt));
}

/// Nothing is taken for WGS84 that does not mention it.
pub proof fn law_wgs84_is_mentioned(upper: Seq<char>)
    requires
        names_wgs84(upper),
    ensures
        occurs(upper, "WGS_1984"@) || occurs(upper, "WGS 84"@) || occurs(upper, "WGS84"@) || occurs(
            upper,
            "GCS_WGS_1984"@,
        ) || occurs(upper, "WORLD GEODETIC SYSTEM 1984"@) || occurs(upper, "\"EPSG\",\"4326\""@)
            || occurs(upper, "\"EPSG\",4326"@),
{
}

/// `indicator` stands in `upper` only where it is no name of the CRS, if at all.
pub open spec fn only_aside(upper: Seq<char>, indicator: Seq<char>) -> bool {
    forall|i: int| #[trigger] occurs_at(upper, indicator, i) ==> is_aside(upper, i)
}

/// A CRS that mentions WGS84 only in the shift from its own datum, or as the name of an
/// ellipsoid, is never taken for WGS84.
pub proof fn law_mention_aside_is_not_wgs84(upper: Seq<char>)
    requires
        only_aside(upper, "WGS_1984"@),
        only_aside(upper, "WGS 84"@),
        only_aside(upper, "WGS84"@),
        only_aside(upper, "GCS_WGS_1984"@),
        only_aside(upper, "WORLD GEODETIC SYSTEM 1984"@),
        only_aside(upper, "\"EPSG\",\"4326\""@),
        only_aside(upper, "\"EPSG\",4326"@),
    ensures
        !names_wgs84(upper),
{
}

/// A geographic CRS that goes by one of the names of WGS84 is taken for it, whatever
/// else its WKT holds.
pub proof fn law_named_crs_is_wgs84(upper: Seq<char>, more: Seq<char>)
    requires
        upper == "GEOGCS[\"WGS84\""@ + more || upper == "GEOGCS[\"WGS 84\""@ + more || upper
            == "GEOGCS[\"WGS_1984\""@ + more || upper == "GEOGCS[\"GCS_WGS_1984\""@ + more,
    ensures
        names_wgs84(upper),
{
    reveal_strlit("GEOGCS[\"WGS84\"");
    reveal_strlit("GEOGCS[\"WGS 84\"");
    reveal_strlit("GEOGCS[\"WGS_1984\"");
    reveal_strlit("GEOGCS[\"GCS_WGS_1984\"");
    reveal_strlit("WGS84");
    reveal_strlit("WGS 84");
    reveal_strlit("WGS_1984");
    reveal_strlit("GCS_WGS_1984");
    reveal_strlit("TO");
    reveal_strlit("ELLPS=");
    reveal_strlit("SPHEROID[\"");
    reveal_strlit("ELLIPSOID[\"");
    reveal_strlit("_MAJOR_AUXILIARY_SPHERE");
    assert(upper[0] == 'G' && upper[1] == 'E' && upper[2] == 'O' && upper[3] == 'G' && upper[4]
        == 'C' && upper[5] == 'S' && upper[6] == '[' && upper[7] == '"');
    lemma_begins_geogcs(upper);
    assert(upper.subrange(6, 8)[0] == '[');
    assert(upper.subrange(2, 8)[0] == 'O');
    assert(!is_aside(upper, 8));
    if upper == "GEOGCS[\"WGS84\""@ + more {
        assert(upper.subrange(8, 13) =~= "WGS84"@);
        assert(upper[13] == '"');
        lemma_no_sphere(upper, 13);
        assert(indicates(upper, "WGS84"@, 8));
    } else if upper == "GEOGCS[\"WGS 84\""@ + more {
        assert(upper.subrange(8, 14) =~= "WGS 84"@);
        assert(upper[14] == '"');
        lemma_no_sphere(upper, 14);
        assert(indicates(upper, "WGS 84"@, 8));
    } else if upper == "GEOGCS[\"WGS_1984\""@ + more {
        assert(upper.subrange(8, 16) =~= "WGS_1984"@);
        assert(upper[16] == '"');
        lemma_no_sphere(upper, 16);
        assert(indicates(upper, "WGS_1984"@, 8));
    } else {
        assert(upper.subrange(8, 20) =~= "GCS_WGS_1984"@);
        assert(upper[20] == '"');
        lemma_no_sphere(upper, 20);
        assert(indicates(upper, "GCS_WGS_1984"@, 8));
    }
}

proof fn lemma_no_sphere(upper: Seq<char>, i: int)
    requires
        0 <= i < upper.len(),
        upper[i] == '"',
    ensures
        !occurs_at(upper, "_MAJOR_AUXILIARY_SPHERE"@, i),
{
    reveal_strlit("_MAJOR_AUXILIARY_SPHERE");
    if occurs_at(upper, "_MAJOR_AUXILIARY_SPHERE"@, i) {
        let part = upper.subrange(i, i + "_MAJOR_AUXILIARY_SPHERE"@.len());
        assert(part[0] == upper[i]);
        assert("_MAJOR_AUXILIARY_SPHERE"@[0] == '_');
    }
}

proof fn lemma_begins_geogcs(upper: Seq<char>)
    requires
        upper.len() >= 8,
        upper[0] == 'G',
        upper[3] == 'G',
        upper[5] == 'S',
    ensures
        !is_projected(upper),
        !is_bound(upper),
        !is_not_geographic(upper),
        !has_projected_part(upper),
{
    lemma_other_start(upper, "PROJCS["@, 0, 'G');
    lemma_other_start(upper, "PROJCRS["@, 0, 'G');
    lemma_other_start(upper, "PROJECTEDCRS["@, 0, 'G');
    lemma_other_start(upper, "BOUNDCRS["@, 0, 'G');
    lemma_other_start(upper, "FITTED_CS["@, 0, 'G');
    lemma_other_start(upper, "LOCAL_CS["@, 0, 'G');
    lemma_other_start(upper, "ENGCRS["@, 0, 'G');
    lemma_other_start(upper, "COMPD_CS["@, 0, 'G');
    lemma_other_start(upper, "COMPOUNDCRS["@, 0, 'G');
    lemma_other_start(upper, "GEOCCS["@, 3, 'G');
    lemma_other_start(upper, "GEODCRS["@, 3, 'G');
    lemma_other_start(upper, "GEOGCRS["@, 5, 'S');
    reveal_strlit("PROJCS[");
    reveal_strlit("PROJCRS[");
    reveal_strlit("PROJECTEDCRS[");
    reveal_strlit("BOUNDCRS[");
    reveal_strlit("FITTED_CS[");
    reveal_strlit("LOCAL_CS[");
    reveal_strlit("ENGCRS[");
    reveal_strlit("COMPD_CS[");
    reveal_strlit("COMPOUNDCRS[");
    reveal_strlit("GEOCCS[");
    reveal_strlit("GEODCRS[");
    reveal_strlit("GEOGCRS[");
}

proof fn lemma_other_start(upper: Seq<char>, word: Seq<char>, i: int, c: char)
    requires
        0 <= i < upper.len(),
        upper[i] == c,
    ensures
        i < word.len() && word[i] != c ==> !word.is_prefix_of(upper),
{
    if i < word.len() && word[i] != c && word.is_prefix_of(upper) {
        assert(upper.subrange(0, word.len() as int)[i] == upper[i]);
    }
}

/// What is reprojected from is the text of the `.prj` file itself, without the white
/// space around it, and it is reprojected from exactly where it is not WGS84.
pub proof fn law_other_crs_is_reprojected_from(text: Seq<char>)
    ensures
        match source_crs(text) {
            None => names_wgs84(uppercased(trimmed(text))),
            Some(crs) => crs == trimmed(text) && !names_wgs84(uppercased(crs)),
        },
{
}

/// A CRS whose text mentions WGS84 only in `TOWGS84` is not WGS84.
pub proof fn law_datum_shift_is_not_wgs84(upper: Seq<char>)
    requires
        forall|i: int| #[trigger]
            occurs_at(upper, "WGS84"@, i) ==> i >= 2 && upper[i - 2] == 'T' && upper[i - 1] == 'O',
        !occurs(upper, "WGS_1984"@),
        !occurs(upper, "WGS 84"@),
        !occurs(upper, "GCS_WGS_1984"@),
        !occurs(upper, "WORLD GEODETIC SYSTEM 1984"@),
        !occurs(upper, "\"EPSG\",\"4326\""@),
        !occurs(upper, "\"EPSG\",4326"@),
    ensures
        !names_wgs84(upper),
{
    reveal_strlit("TO");
    assert forall|i: int| !#[trigger] indicates(upper, "WGS84"@, i) by {
        if occurs_at(upper, "WGS84"@, i) {
            assert(upper.subrange(i - 2, i) =~= "TO"@);
        }
    }
}

/// A CRS that is projected, bound to another, geocentric, fitted or local is not WGS84,
/// and neither is one that is Cartesian or derived, or a compound with a projected or
/// bound part, whatever else is said.
pub proof fn law_other_kinds_are_not_wgs84(kind: Seq<char>, more: Seq<char>)
    requires
        ({
            ||| kind == "PROJCS["@ || kind == "PROJCRS["@ || kind == "PROJECTEDCRS["@
            ||| kind == "BOUNDCRS["@ || kind == "GEOCCS["@ || kind == "FITTED_CS["@
            ||| kind == "LOCAL_CS["@ || kind == "ENGCRS["@
            ||| (kind == "GEODCRS["@ || kind == "GEOGCRS["@) && occurs(
                kind + more,
                "CARTESIAN"@,
            )
            ||| (kind == "GEODCRS["@ || kind == "GEOGCRS["@) && occurs(
                kind + more,
                "DERIVINGCONVERSION["@,
            )
            ||| (kind == "COMPD_CS["@ || kind == "COMPOUNDCRS["@) && {
                ||| occurs(kind + more, "PROJCS["@)
                ||| occurs(kind + more, "PROJCRS["@)
                ||| occurs(kind + more, "PROJECTEDCRS["@)
                ||| occurs(kind + more, "BOUNDCRS["@)
            }
        }),
    ensures
        !names_wgs84(kind + more),
{
    assert(kind =~= (kind + more).subrange(0, kind.len() as int));
    assert(kind.is_prefix_of(kind + more));
}

/// What stands at `i` is given as the name of an ellipsoid.
pub open spec fn names_ellipsoid(upper: Seq<char>, i: int) -> bool {
    ||| occurs_at(upper, "ELLPS="@, i - 6)
    ||| occurs_at(upper, "SPHEROID[\""@, i - 10)
    ||| occurs_at(upper, "ELLIPSOID[\""@, i - 11)
}

proof fn lemma_ellipsoid_is_aside(upper: Seq<char>, i: int)
    requires
        names_ellipsoid(upper, i),
    ensures
        follows(upper, "ELLPS="@, i) || follows(upper, "SPHEROID[\""@, i) || follows(
            upper,
            "ELLIPSOID[\""@,
            i,
        ),
{
    reveal_strlit("ELLPS=");
    reveal_strlit("SPHEROID[\"");
    reveal_strlit("ELLIPSOID[\"");
}

/// The name of an ellipsoid does not make a CRS pass for WGS84 where the datum is not
/// named: other datums share the ellipsoid.
pub proof fn law_ellipsoid_alone_is_not_wgs84(upper: Seq<char>)
    requires
        forall|i: int| #[trigger] occurs_at(upper, "WGS_1984"@, i) ==> names_ellipsoid(upper, i),
        forall|i: int| #[trigger] occurs_at(upper, "WGS 84"@, i) ==> names_ellipsoid(upper, i),
        forall|i: int| #[trigger] occurs_at(upper, "WGS84"@, i) ==> names_ellipsoid(upper, i),
        !occurs(upper, "GCS_WGS_1984"@),
        !occurs(upper, "WORLD GEODETIC SYSTEM 1984"@),
        !occurs(upper, "\"EPSG\",\"4326\""@),
        !occurs(upper, "\"EPSG\",4326"@),
        !occurs(upper, "WORLD_GEODETIC_SYSTEM_1984"@),
        !occurs(upper, "WGS_84"@),
        !occurs(upper, "WGS-84"@),
        !occurs(upper, "WGS1984"@),
        !occurs(upper, "WGS 1984"@),
    ensures
        !names_wgs84(upper),
{
    assert forall|i: int| !#[trigger] indicates(upper, "WGS_1984"@, i) by {
        if occurs_at(upper, "WGS_1984"@, i) {
            lemma_ellipsoid_is_aside(upper, i);
        }
    }
    assert forall|i: int| !#[trigger] indicates(upper, "WGS 84"@, i) by {
        if occurs_at(upper, "WGS 84"@, i) {
            lemma_ellipsoid_is_aside(upper, i);
        }
    }
    assert forall|i: int| !#[trigger] indicates(upper, "WGS84"@, i) by {
        if occurs_at(upper, "WGS84"@, i) {
            lemma_ellipsoid_is_aside(upper, i);
        }
    }
}

/// A code of which 4326 is only the beginning is another CRS, and so is the sphere of web
/// maps, whose name begins like that of WGS84.
pub proof fn law_longer_name_is_another(upper: Seq<char>)
    requires
        forall|i: int| #[trigger]
            occurs_at(upper, "\"EPSG\",4326"@, i) ==> i + 11 < upper.len() && '0' <= upper[i + 11]
                && upper[i + 11] <= '9',
        forall|i: int| #[trigger]
            occurs_at(upper, "WGS_1984"@, i) ==> occurs_at(
                upper,
                "_MAJOR_AUXILIARY_SPHERE"@,
                i + 8,
            ),
        !occurs(upper, "WGS 84"@),
        !occurs(upper, "WGS84"@),
        !occurs(upper, "GCS_WGS_1984"@),
        !occurs(upper, "WORLD GEODETIC SYSTEM 1984"@),
        !occurs(upper, "\"EPSG\",\"4326\""@),
    ensures
        !names_wgs84(upper),
{
    reveal_strlit("\"EPSG\",4326");
    reveal_strlit("WGS_1984");
    assert forall|i: int| !#[trigger] indicates(upper, "\"EPSG\",4326"@, i) by {
        if occurs_at(upper, "\"EPSG\",4326"@, i) {
            assert(is_digit(upper[i + 11]));
        }
    }
    assert forall|i: int| !#[trigger] indicates(upper, "WGS_1984"@, i) by {
        if occurs_at(upper, "WGS_1984"@, i) {
            assert(occurs_at(upper, "_MAJOR_AUXILIARY_SPHERE"@, i + 8));
        }
    }
}

/// A geographic CRS is taken for WGS84 where a name or the code of WGS84 stands in its
/// WKT by itself: it does not go on, it is not part of another word, and it is no mere
/// name of an ellipsoid, or else the datum is named too, in whatever spelling.
pub proof fn law_mention_makes_wgs84(upper: Seq<char>, word: Seq<char>, i: int)
    requires
        occurs_at(upper, "GEOGCS["@, 0),
        upper.len() >= 8,
        word == "WGS_1984"@ || word == "WGS 84"@ || word == "WGS84"@ || word == "GCS_WGS_1984"@
            || word == "WORLD GEODETIC SYSTEM 1984"@ || word == "\"EPSG\",\"4326\""@ || word
            == "\"EPSG\",4326"@,
        occurs_at(upper, word, i),
        i >= 7,
        i + word.len() < upper.len() ==> upper[i + word.len()] != '_' && !('0' <= upper[i
            + word.len()] && upper[i + word.len()] <= '9'),
        upper[i - 1] != 'O',
        (upper[i - 1] != '"' && upper[i - 1] != '=') || occurs(
            upper,
            "WORLD_GEODETIC_SYSTEM_1984"@,
        ) || occurs(upper, "WGS_84"@) || occurs(upper, "WGS-84"@) || occurs(upper, "WGS1984"@)
            || occurs(upper, "WGS 1984"@),
    ensures
        names_wgs84(upper),
{
    reveal_strlit("GEOGCS[");
    let start = upper.subrange(0, 7);
    assert(start == "GEOGCS["@);
    assert(start[0] == upper[0] && start[3] == upper[3] && start[5] == upper[5]);
    lemma_begins_geogcs(upper);
    lemma_stands_alone(upper, i);
    lemma_ends(upper, word, i);
    assert(indicates(upper, word, i));
}

/// What follows neither `O`, `=` nor `"` is not aside, nor what does not follow `O` in a
/// text that names the datum.
proof fn lemma_stands_alone(upper: Seq<char>, i: int)
    requires
        1 <= i <= upper.len(),
        upper[i - 1] != 'O',
        (upper[i - 1] != '"' && upper[i - 1] != '=') || names_datum(upper),
    ensures
        !is_aside(upper, i),
{
    reveal_strlit("TO");
    reveal_strlit("ELLPS=");
    reveal_strlit("SPHEROID[\"");
    reveal_strlit("ELLIPSOID[\"");
    if i >= 2 {
        assert(upper.subrange(i - 2, i)[1] == upper[i - 1]);
    }
    if i >= 6 {
        assert(upper.subrange(i - 6, i)[5] == upper[i - 1]);
    }
    if i >= 10 {
        assert(upper.subrange(i - 10, i)[9] == upper[i - 1]);
    }
    if i >= 11 {
        assert(upper.subrange(i - 11, i)[10] == upper[i - 1]);
    }
}

/// What neither `_` nor a digit follows does not go on.
proof fn lemma_ends(upper: Seq<char>, word: Seq<char>, i: int)
    requires
        0 <= i,
        i + word.len() < upper.len() ==> upper[i + word.len()] != '_' && !is_digit(
            upper[i + word.len()],
        ),
    ensures
        !goes_on(upper, word, i),
{
    reveal_strlit("_MAJOR_AUXILIARY_SPHERE");
    let end = i + word.len();
    let sphere = "_MAJOR_AUXILIARY_SPHERE"@;
    if occurs_at(upper, sphere, end) {
        assert(upper.subrange(end, end + sphere.len())[0] == upper[end]);
        assert(sphere[0] == '_');
    }
}

} // verus!

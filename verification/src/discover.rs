//! Shapefiles found under the input root, and whether they are complete.
use vstd::prelude::*;
use vstd::string::*;

use crate::error::AppError;
use crate::output::{bytes_text, format_bytes, tenths, tenths_text, GB};
use crate::paths::{
    components, extension, extension_of_name, file_name_of, last_dot, lemma_last_dot_bounds,
    path_with_extension, renamed, with_extension,
};
use crate::text::{
    decimal, decimal_text, join_text, joined, lemma_middle_occurs, occurs, same_text, texts,
};

verus! {

// ── Entries ─────────────────────────────────────────────────────────────────
/// Indicates whether a discovered shapefile entry has all required sidecar files.
#[derive(Debug, PartialEq, Eq)]
pub enum EntryStatus<L = Vec<&'static str>> {
    /// All required sidecars (`.dbf`, `.shx`) are present.
    Valid,
    /// One or more required sidecars are missing. Contains the missing extensions.
    Invalid(L),
}

impl View for EntryStatus {
    type V = EntryStatus<Seq<Seq<char>>>;

    open spec fn view(&self) -> EntryStatus<Seq<Seq<char>>> {
        match self {
            EntryStatus::Valid => EntryStatus::Valid,
            EntryStatus::Invalid(missing) => EntryStatus::Invalid(
                missing@.map_values(|s: &'static str| s@),
            ),
        }
    }
}

/// Represents a single discovered shapefile dataset with its sidecar file paths.
///
/// A valid shapefile dataset consists of `.shp` + `.dbf` + `.shx`.
/// The `.prj` (CRS) and `.cpg` (encoding) sidecars are optional.
#[derive(Debug, PartialEq, Eq)]
pub struct ShapefileEntry<T = String, L = Vec<&'static str>> {
    /// Path to the `.shp` geometry file.
    pub shp: T,
    /// Path to the `.dbf` attribute table.
    pub dbf: T,
    /// Path to the `.shx` spatial index.
    pub shx: T,
    /// Path to the `.prj` CRS definition (optional).
    pub prj: Option<T>,
    /// Path to the `.cpg` character encoding hint (optional).
    pub cpg: Option<T>,
    /// Whether this entry has all required sidecars.
    pub status: EntryStatus<L>,
}

/// An entry as a mathematical value.
pub type EntryModel = ShapefileEntry<Seq<char>, Seq<Seq<char>>>;

/// The characters of a text that may be absent.
pub open spec fn optional(t: Option<String>) -> Option<Seq<char>> {
    match t {
        Some(s) => Some(s@),
        None => None,
    }
}

impl View for ShapefileEntry {
    type V = EntryModel;

    open spec fn view(&self) -> EntryModel {
        ShapefileEntry {
            shp: self.shp@,
            dbf: self.dbf@,
            shx: self.shx@,
            prj: optional(self.prj),
            cpg: optional(self.cpg),
            status: self.status@,
        }
    }
}

pub open spec fn entries_view(entries: Seq<ShapefileEntry>) -> Seq<EntryModel> {
    entries.map_values(|e: ShapefileEntry| e@)
}

impl ShapefileEntry {
    /// Returns `true` if this entry is ready to be converted.
    pub fn is_valid(&self) -> (r: bool)
        ensures
            r == (self.status is Valid),
    {
        match &self.status {
            EntryStatus::Valid => true,
            EntryStatus::Invalid(_) => false,
        }
    }
}

// ── Finding them ────────────────────────────────────────────────────────────
/// A regular file under the input root: its size, and which of the files beside it
/// exist, under its name with another extension.
#[derive(Debug, PartialEq, Eq)]
pub struct FoundFile {
    pub path: String,
    pub size: u64,
    pub dbf: bool,
    pub shx: bool,
    pub prj: bool,
    pub cpg: bool,
}

/// The files that may stand beside a `.shp` file.
#[derive(Debug, PartialEq, Eq)]
pub struct Sidecars<T = String> {
    pub dbf: T,
    pub shx: T,
    pub prj: T,
    pub cpg: T,
}

impl View for Sidecars {
    type V = Sidecars<Seq<char>>;

    open spec fn view(&self) -> Sidecars<Seq<char>> {
        Sidecars { dbf: self.dbf@, shx: self.shx@, prj: self.prj@, cpg: self.cpg@ }
    }
}

/// The files that may stand beside a `.shp` file.
pub open spec fn sidecars_of(shp: Seq<char>) -> Sidecars<Seq<char>> {
    Sidecars {
        dbf: path_with_extension(shp, "dbf"@),
        shx: path_with_extension(shp, "shx"@),
        prj: path_with_extension(shp, "prj"@),
        cpg: path_with_extension(shp, "cpg"@),
    }
}

/// `r` is `shp` with `ext` in place of the extension of its last component.
pub open spec fn stands_beside(r: Seq<char>, shp: Seq<char>, ext: Seq<char>) -> bool {
    file_name_of(shp) matches Some(name) ==> components(r) == components(shp).drop_last().push(
        renamed(name, ext),
    )
}

/// The files that may stand beside a `.shp` file: each has its name, with an
/// extension of its own.
pub fn sidecars(shp: &str) -> (r: Sidecars)
    ensures
        r@ == sidecars_of(shp@),
        stands_beside(r.dbf@, shp@, "dbf"@),
        stands_beside(r.shx@, shp@, "shx"@),
        stands_beside(r.prj@, shp@, "prj"@),
        stands_beside(r.cpg@, shp@, "cpg"@),
{
    proof {
        reveal_strlit("dbf");
        reveal_strlit("shx");
        reveal_strlit("prj");
        reveal_strlit("cpg");
    }
    Sidecars {
        dbf: with_extension(shp, "dbf"),
        shx: with_extension(shp, "shx"),
        prj: with_extension(shp, "prj"),
        cpg: with_extension(shp, "cpg"),
    }
}

/// Whether a path has the extension `shp`, in lower case.
pub open spec fn is_shp(path: Seq<char>) -> bool {
    file_name_of(path) matches Some(name) && extension_of_name(name) == Some("shp"@)
}

/// Whether a path has the extension `shp`, in lower case.
pub fn has_shp_extension(path: &str) -> (r: bool)
    ensures
        r == is_shp(path@),
{
    match extension(path) {
        Some(ext) => same_text(ext.as_str(), "shp"),
        None => false,
    }
}

/// The required sidecars that are missing.
pub open spec fn missing_of(dbf: bool, shx: bool) -> Seq<Seq<char>> {
    (if dbf {
        Seq::<Seq<char>>::empty()
    } else {
        seq![".dbf"@]
    }) + (if shx {
        Seq::<Seq<char>>::empty()
    } else {
        seq![".shx"@]
    })
}

/// The entry for a `.shp` file.
pub open spec fn entry_of(file: FoundFile) -> EntryModel {
    let beside = sidecars_of(file.path@);
    ShapefileEntry {
        shp: file.path@,
        dbf: beside.dbf,
        shx: beside.shx,
        prj: if file.prj {
            Some(beside.prj)
        } else {
            None
        },
        cpg: if file.cpg {
            Some(beside.cpg)
        } else {
            None
        },
        status: if file.dbf && file.shx {
            EntryStatus::Valid
        } else {
            EntryStatus::Invalid(missing_of(file.dbf, file.shx))
        },
    }
}

/// Builds a `ShapefileEntry` for a given `.shp` file.
pub fn check_entry(file: &FoundFile) -> (r: ShapefileEntry)
    ensures
        r@ == entry_of(*file),
        stands_beside(r.dbf@, file.path@, "dbf"@),
        stands_beside(r.shx@, file.path@, "shx"@),
        r.prj matches Some(p) ==> stands_beside(p@, file.path@, "prj"@),
        r.cpg matches Some(p) ==> stands_beside(p@, file.path@, "cpg"@),
{
    let beside = sidecars(file.path.as_str());
    let mut missing: Vec<&'static str> = Vec::new();
    if !file.dbf {
        missing.push(".dbf");
    }
    if !file.shx {
        missing.push(".shx");
    }
    assert(missing@.map_values(|s: &'static str| s@) =~= missing_of(file.dbf, file.shx));
    let status = if missing.len() == 0 {
        EntryStatus::Valid
    } else {
        EntryStatus::Invalid(missing)
    };
    ShapefileEntry {
        shp: file.path.clone(),
        dbf: beside.dbf,
        shx: beside.shx,
        prj: if file.prj {
            Some(beside.prj)
        } else {
            None
        },
        cpg: if file.cpg {
            Some(beside.cpg)
        } else {
            None
        },
        status,
    }
}

/// The entries for the `.shp` files among `files`, in their order.
pub open spec fn entries_of(files: Seq<FoundFile>) -> Seq<EntryModel>
    decreases files.len(),
{
    if files.len() == 0 {
        Seq::empty()
    } else {
        let front = entries_of(files.drop_last());
        if is_shp(files.last().path@) {
            front.push(entry_of(files.last()))
        } else {
            front
        }
    }
}

/// The file is a `.shp` file with all required sidecars.
pub open spec fn is_complete(file: FoundFile) -> bool {
    is_shp(file.path@) && file.dbf && file.shx
}

/// The number of valid entries.
pub open spec fn valid_of(entries: Seq<EntryModel>) -> nat
    decreases entries.len(),
{
    if entries.len() == 0 {
        0
    } else {
        valid_of(entries.drop_last()) + if entries.last().status is Valid {
            1nat
        } else {
            0nat
        }
    }
}

/// The sizes of the complete `.shp` files, added up.
pub open spec fn input_bytes(files: Seq<FoundFile>) -> nat
    decreases files.len(),
{
    if files.len() == 0 {
        0
    } else {
        input_bytes(files.drop_last()) + if is_complete(files.last()) {
            files.last().size as nat
        } else {
            0
        }
    }
}

/// Summary statistics produced by the discovery phase.
///
/// Contains all discovered entries along with aggregate counts and size
/// estimates used to inform the user before conversion begins.
#[derive(Debug, PartialEq, Eq)]
pub struct DiscoveryReport {
    /// All discovered shapefile entries (both valid and invalid).
    pub entries: Vec<ShapefileEntry>,
    /// Number of entries where all required sidecars are present.
    pub valid_count: usize,
    /// Number of entries with one or more missing required sidecars.
    pub invalid_count: usize,
    /// Sum of `.shp` file sizes for valid entries (bytes).
    pub total_input_bytes: u64,
    /// Estimated GeoJSON output size: `total_input_bytes * 3.7`, or the greatest size
    /// there is, if that is less.
    pub estimated_output_bytes: u64,
}

impl DiscoveryReport {
    /// The counts are those of the entries.
    pub open spec fn well_formed(&self) -> bool {
        &&& self.valid_count == valid_of(entries_view(self.entries@))
        &&& self.valid_count + self.invalid_count == self.entries@.len()
    }
}

proof fn lemma_input_bytes_grow(files: Seq<FoundFile>, n: int)
    requires
        0 <= n <= files.len(),
    ensures
        input_bytes(files.take(n)) <= input_bytes(files),
    decreases files.len() - n,
{
    if n < files.len() {
        assert(files.take(n + 1).drop_last() =~= files.take(n));
        lemma_input_bytes_grow(files, n + 1);
    } else {
        assert(files.take(n) =~= files);
    }
}

/// The estimated GeoJSON output size for so many bytes of input.
pub open spec fn estimate(total: nat) -> nat {
    if total * 37 / 10 <= u64::MAX {
        total * 37 / 10
    } else {
        u64::MAX as nat
    }
}

fn estimate_output(total: u64) -> (r: u64)
    ensures
        r == estimate(total as nat),
{
    let estimated: u128 = total as u128 * 37 / 10;
    if estimated <= u64::MAX as u128 {
        estimated as u64
    } else {
        u64::MAX
    }
}

/// Picks the `.shp` files out of the regular files under the input root, in the order
/// in which they were found, and validates their required sidecar files.
///
/// `.dbf` and `.shx` must exist alongside the `.shp` for an entry to be `Valid`.
/// Missing either produces an `Invalid` entry listing the missing extensions.
/// `.prj` and `.cpg` are stored when present but are not required.
pub fn discover(files: &Vec<FoundFile>) -> (r: DiscoveryReport)
    requires
        input_bytes(files@) <= u64::MAX,
    ensures
        r.well_formed(),
        entries_view(r.entries@) == entries_of(files@),
        r.total_input_bytes == input_bytes(files@),
        r.estimated_output_bytes == estimate(input_bytes(files@)),
{
    let mut entries: Vec<ShapefileEntry> = Vec::new();
    let mut valid_count: usize = 0;
    let mut total: u64 = 0;
    let mut i: usize = 0;
    proof {
        assert(files@.take(0) =~= Seq::empty());
        assert(entries_view(entries@) =~= Seq::empty());
    }
    while i < files.len()
        invariant
            i <= files@.len(),
            input_bytes(files@) <= u64::MAX,
            entries_view(entries@) == entries_of(files@.take(i as int)),
            valid_count == valid_of(entries_view(entries@)),
            valid_count <= entries@.len() <= i,
            total == input_bytes(files@.take(i as int)),
        decreases files@.len() - i,
    {
        let ghost before = entries_view(entries@);
        proof {
            assert(files@.take(i + 1).drop_last() =~= files@.take(i as int));
            lemma_input_bytes_grow(files@, i + 1);
        }
        if has_shp_extension(files[i].path.as_str()) {
            let entry = check_entry(&files[i]);
            if entry.is_valid() {
                valid_count = valid_count + 1;
                total = total + files[i].size;
            }
            entries.push(entry);
            proof {
                assert(entries_view(entries@) =~= before.push(entry@));
                assert(before.push(entry@).drop_last() =~= before);
            }
        }
        i = i + 1;
    }
    assert(files@.take(files@.len() as int) =~= files@);
    let invalid_count: usize = entries.len() - valid_count;
    DiscoveryReport {
        entries,
        valid_count,
        invalid_count,
        total_input_bytes: total,
        estimated_output_bytes: estimate_output(total),
    }
}

/// What to make of a directory that cannot be walked, so many levels below the input
/// root: without the root itself there is no report, and any other is passed over with
/// a warning.
pub fn walk_failure(input_root: &str, depth: usize, cause: String) -> (r: Result<String, AppError>)
    ensures
        match r {
            Err(e) => depth == 0 && e@ == (AppError::Io { path: input_root@, source: cause@ }),
            Ok(warning) => depth > 0 && warning@ == "warning: directory walk error: "@ + cause@,
        },
{
    if depth == 0 {
        Err(AppError::Io { path: String::from_str(input_root), source: cause })
    } else {
        let mut warning = String::from_str("warning: directory walk error: ");
        warning.append(cause.as_str());
        Ok(warning)
    }
}

/// An entry is valid exactly where both required sidecars exist, and an invalid one
/// lists exactly those that do not. The optional ones make no difference.
pub proof fn law_required_sidecars_decide(file: FoundFile)
    ensures
        entry_of(file).status is Valid <==> file.dbf && file.shx,
        entry_of(file).status matches EntryStatus::Invalid(missing) ==> {
            &&& missing.contains(".dbf"@) <==> !file.dbf
            &&& missing.contains(".shx"@) <==> !file.shx
            &&& missing.len() == (if file.dbf { 0int } else { 1 }) + (if file.shx { 0int } else { 1 })
        },
{
    reveal_strlit(".dbf");
    reveal_strlit(".shx");
    assert(".dbf"@[1] != ".shx"@[1]);
    let missing = missing_of(file.dbf, file.shx);
    if !file.dbf {
        assert(missing[0] == ".dbf"@);
    }
    if !file.shx {
        assert(missing[missing.len() - 1] == ".shx"@);
    }
}

/// Every `.shp` file has its entry, whatever becomes of the others.
pub proof fn law_every_shapefile_has_an_entry(files: Seq<FoundFile>, i: int)
    requires
        0 <= i < files.len(),
        is_shp(files[i].path@),
    ensures
        entries_of(files).contains(entry_of(files[i])),
    decreases files.len(),
{
    let all = entries_of(files);
    let front = entries_of(files.drop_last());
    if i == files.len() - 1 {
        assert(all[all.len() - 1] == entry_of(files[i]));
    } else {
        law_every_shapefile_has_an_entry(files.drop_last(), i);
        let j = choose|j: int| 0 <= j < front.len() && front[j] == entry_of(files[i]);
        assert(all[j] == front[j]);
    }
}

// ── The report of a dry run ─────────────────────────────────────────────────
/// Sizes of which neither comes to a hundredth of a gigabyte are not given in
/// gigabytes.
pub const WORTH_GIGABYTES: u64 = 10_737_419;

/// The line of the report on one entry.
pub open spec fn entry_line(entry: EntryModel) -> Seq<char> {
    match entry.status {
        EntryStatus::Valid => "  OK       "@ + entry.shp,
        EntryStatus::Invalid(missing) => "  INVALID  "@ + entry.shp + " — missing "@ + joined(
            missing,
            ", "@,
        ),
    }
}

/// The line of the report that gives the sizes in gigabytes, where they are worth it.
pub open spec fn gigabytes_line(input: nat, output: nat) -> Seq<Seq<char>> {
    if input >= WORTH_GIGABYTES || output >= WORTH_GIGABYTES {
        seq![
            "                             ("@ + tenths_text(input, GB as nat) + " GB → "@
                + tenths_text(output, GB as nat) + " GB)"@,
        ]
    } else {
        Seq::empty()
    }
}

/// The lines of the report of a dry run.
pub open spec fn report_lines(report: &DiscoveryReport) -> Seq<Seq<char>> {
    seq![
        "Discovery report:"@,
        "  Total .shp files found   : "@ + decimal(report.entries@.len()),
        "  Valid (all sidecars OK)  : "@ + decimal(report.valid_count as nat),
        "  Invalid (missing sidecar): "@ + decimal(report.invalid_count as nat),
        "  Total input size         : "@ + bytes_text(report.total_input_bytes as nat),
        "  Estimated output size    : "@ + bytes_text(report.estimated_output_bytes as nat),
    ] + gigabytes_line(
        report.total_input_bytes as nat,
        report.estimated_output_bytes as nat,
    ) + seq![Seq::<char>::empty()] + entries_view(report.entries@).map_values(
        |e: EntryModel| entry_line(e),
    )
}

fn with_number(label: &str, n: usize) -> (r: String)
    ensures
        r@ == label@ + decimal(n as nat),
{
    let mut s = String::from_str(label);
    let d = decimal_text(n as u128);
    s.append(d.as_str());
    s
}

fn with_size(label: &str, bytes: u64) -> (r: String)
    ensures
        r@ == label@ + bytes_text(bytes as nat),
{
    let mut s = String::from_str(label);
    let d = format_bytes(bytes);
    s.append(d.as_str());
    s
}

fn describe_entry(entry: &ShapefileEntry) -> (r: String)
    ensures
        r@ == entry_line(entry@),
{
    match &entry.status {
        EntryStatus::Valid => {
            let mut s = String::from_str("  OK       ");
            s.append(entry.shp.as_str());
            s
        },
        EntryStatus::Invalid(missing) => {
            let mut s = String::from_str("  INVALID  ");
            s.append(entry.shp.as_str());
            s.append(" — missing ");
            let list = join_text(missing, ", ");
            s.append(list.as_str());
            s
        },
    }
}

/// The lines of the report of a dry run.
pub fn dry_run_report(report: &DiscoveryReport) -> (r: Vec<String>)
    ensures
        texts(r@) == report_lines(report),
{
    let mut r: Vec<String> = Vec::new();
    r.push(String::from_str("Discovery report:"));
    r.push(with_number("  Total .shp files found   : ", report.entries.len()));
    r.push(with_number("  Valid (all sidecars OK)  : ", report.valid_count));
    r.push(with_number("  Invalid (missing sidecar): ", report.invalid_count));
    r.push(with_size("  Total input size         : ", report.total_input_bytes));
    r.push(with_size("  Estimated output size    : ", report.estimated_output_bytes));
    if report.total_input_bytes >= WORTH_GIGABYTES || report.estimated_output_bytes
        >= WORTH_GIGABYTES {
        let mut s = String::from_str("                             (");
        let input = tenths(report.total_input_bytes, GB);
        s.append(input.as_str());
        s.append(" GB → ");
        let output = tenths(report.estimated_output_bytes, GB);
        s.append(output.as_str());
        s.append(" GB)");
        r.push(s);
    }
    r.push(String::new());
    let ghost lines = entries_view(report.entries@).map_values(|e: EntryModel| entry_line(e));
    let ghost head = texts(r@);
    assert(head =~= report_lines(report).take(head.len() as int));
    assert(report_lines(report) =~= head + lines);
    let mut i: usize = 0;
    assert(texts(r@) =~= head + lines.take(0));
    while i < report.entries.len()
        invariant
            i <= report.entries@.len(),
            lines == entries_view(report.entries@).map_values(|e: EntryModel| entry_line(e)),
            texts(r@) == head + lines.take(i as int),
        decreases report.entries@.len() - i,
    {
        let ghost before = texts(r@);
        let line = describe_entry(&report.entries[i]);
        r.push(line);
        proof {
            assert(texts(r@) =~= before.push(line@));
            assert(lines.take(i + 1) =~= lines.take(i as int).push(lines[i as int]));
        }
        i = i + 1;
    }
    assert(lines.take(lines.len() as int) =~= lines);
    r
}

// ── Laws ────────────────────────────────────────────────────────────────────
/// A file counts as a shapefile exactly where its name ends in `.shp` and has something
/// before that.
pub proof fn law_shapefiles_end_in_shp(path: Seq<char>)
    ensures
        is_shp(path) <==> (file_name_of(path) matches Some(name) && name.len() > 4
            && ".shp"@.is_suffix_of(name)),
{
    reveal_strlit("shp");
    reveal_strlit(".shp");
    if let Some(name) = file_name_of(path) {
        let n = name.len() as int;
        if name.len() > 4 && ".shp"@.is_suffix_of(name) {
            let tail = name.subrange(n - 4, n);
            assert(tail =~= ".shp"@);
            assert(tail[0] == name[n - 4] && tail[1] == name[n - 3] && tail[2] == name[n - 2]
                && tail[3] == name[n - 1]);
            reveal_with_fuel(last_dot, 5);
            assert(last_dot(name) == Some(n - 4));
            assert(name.skip(n - 3) =~= "shp"@);
        } else if extension_of_name(name) == Some("shp"@) {
            lemma_last_dot_bounds(name);
            let i = last_dot(name).unwrap();
            assert(name.skip(i + 1).len() == 3);
            assert(name.skip(i + 1)[0] == name[i + 1]);
            assert(name.skip(i + 1)[1] == name[i + 2]);
            assert(name.skip(i + 1)[2] == name[i + 3]);
            assert(".shp"@ =~= name.subrange(n - 4, n));
        }
    }
}

/// An entry is about its own file: it has the file's path and the paths beside it, and
/// knows the optional sidecars exactly where they exist.
pub proof fn law_entry_is_about_its_file(file: FoundFile)
    ensures
        ({
            let e = entry_of(file);
            &&& e.shp == file.path@
            &&& e.dbf == path_with_extension(file.path@, "dbf"@)
            &&& e.shx == path_with_extension(file.path@, "shx"@)
            &&& e.prj is Some == file.prj
            &&& e.cpg is Some == file.cpg
            &&& e.prj matches Some(p) ==> p == path_with_extension(file.path@, "prj"@)
            &&& e.cpg matches Some(p) ==> p == path_with_extension(file.path@, "cpg"@)
        }),
{
}

/// One more file adds at most one entry, at the end: its own, where it is a shapefile.
/// It counts as valid, and its size is added, exactly where it has both required
/// sidecars.
pub proof fn law_one_more_file(files: Seq<FoundFile>, file: FoundFile)
    ensures
        ({
            let more = files.push(file);
            let complete = is_shp(file.path@) && file.dbf && file.shx;
            &&& entries_of(more) == (if is_shp(file.path@) {
                entries_of(files).push(entry_of(file))
            } else {
                entries_of(files)
            })
            &&& valid_of(entries_of(more)) == valid_of(entries_of(files)) + (if complete {
                1nat
            } else {
                0nat
            })
            &&& input_bytes(more) == input_bytes(files) + (if complete {
                file.size as nat
            } else {
                0nat
            })
        }),
        entries_of(Seq::empty()).len() == 0,
        input_bytes(Seq::empty()) == 0,
        valid_of(Seq::empty()) == 0,
{
    let more = files.push(file);
    assert(more.drop_last() =~= files);
    if is_shp(file.path@) {
        let all = entries_of(files).push(entry_of(file));
        assert(all.drop_last() =~= entries_of(files));
    }
}

/// The output is estimated at 3.7 times the input, rounded down, as far as there are
/// numbers for it.
pub proof fn law_estimate_is_proportional(total: nat)
    ensures
        total * 37 / 10 <= u64::MAX ==> 10 * estimate(total) <= 37 * total < 10 * (estimate(total)
            + 1),
        total * 37 / 10 > u64::MAX ==> estimate(total) == u64::MAX,
{
}

/// The line on an entry names its file. It says `OK` exactly of a valid entry, and names
/// what is missing of any other.
pub proof fn law_entry_line_tells_the_status(entry: EntryModel)
    ensures
        occurs(entry_line(entry), entry.shp),
        "  OK       "@.is_prefix_of(entry_line(entry)) <==> entry.status is Valid,
        "  INVALID  "@.is_prefix_of(entry_line(entry)) <==> !(entry.status is Valid),
        entry.status matches EntryStatus::Invalid(missing) ==> occurs(
            entry_line(entry),
            " — missing "@ + joined(missing, ", "@),
        ),
{
    reveal_strlit("  OK       ");
    reveal_strlit("  INVALID  ");
    let none = Seq::<char>::empty();
    let line = entry_line(entry);
    match entry.status {
        EntryStatus::Valid => {
            let head = "  OK       "@;
            assert(line =~= head + entry.shp + none);
            lemma_middle_occurs(head, entry.shp, none);
            assert(head =~= line.subrange(0, head.len() as int));
            assert(line.subrange(0, "  INVALID  "@.len() as int)[2] == 'O');
        },
        EntryStatus::Invalid(missing) => {
            let head = "  INVALID  "@;
            let tail = " — missing "@ + joined(missing, ", "@);
            assert(line =~= head + entry.shp + tail);
            lemma_middle_occurs(head, entry.shp, tail);
            assert(line =~= (head + entry.shp) + tail + none);
            lemma_middle_occurs(head + entry.shp, tail, none);
            assert(head =~= line.subrange(0, head.len() as int));
            assert(line.subrange(0, "  OK       "@.len() as int)[2] == 'I');
        },
    }
}

/// The report of a dry run has a line on each entry at its end, in their order, and tells
/// the counts and the sizes before.
pub proof fn law_report_lists_every_entry(report: &DiscoveryReport)
    ensures
        ({
            let lines = report_lines(report);
            let n = report.entries@.len() as int;
            &&& lines.len() >= n + 7
            &&& forall|i: int|
                0 <= i < n ==> #[trigger] lines[lines.len() - n + i] == entry_line(
                    report.entries@[i]@,
                )
            &&& decimal(report.entries@.len()).is_suffix_of(lines[1])
            &&& decimal(report.valid_count as nat).is_suffix_of(lines[2])
            &&& decimal(report.invalid_count as nat).is_suffix_of(lines[3])
            &&& bytes_text(report.total_input_bytes as nat).is_suffix_of(lines[4])
            &&& bytes_text(report.estimated_output_bytes as nat).is_suffix_of(lines[5])
        }),
{
    let lines = report_lines(report);
    let n = report.entries@.len() as int;
    let tail = entries_view(report.entries@).map_values(|e: EntryModel| entry_line(e));
    assert(lines.skip(lines.len() - n) =~= tail);
    assert forall|i: int| 0 <= i < n implies #[trigger] lines[lines.len() - n + i] == entry_line(
        report.entries@[i]@,
    ) by {
        assert(tail[i] == lines.skip(lines.len() - n)[i]);
    }
    lemma_suffix("  Total .shp files found   : "@, decimal(report.entries@.len()));
    lemma_suffix("  Valid (all sidecars OK)  : "@, decimal(report.valid_count as nat));
    lemma_suffix("  Invalid (missing sidecar): "@, decimal(report.invalid_count as nat));
    lemma_suffix("  Total input size         : "@, bytes_text(report.total_input_bytes as nat));
    lemma_suffix(
        "  Estimated output size    : "@,
        bytes_text(report.estimated_output_bytes as nat),
    );
}

proof fn lemma_suffix(a: Seq<char>, b: Seq<char>)
    ensures
        b.is_suffix_of(a + b),
{
    let s = a + b;
    assert(b =~= s.subrange(s.len() - b.len(), s.len() as int));
}

proof fn lemma_rest_occurs(
    head: Seq<char>,
    a: Seq<char>,
    b: Seq<char>,
    c: Seq<char>,
    d: Seq<char>,
)
    ensures
        occurs(head + a + b + c + d, a + b + c + d),
{
    assert(head + a + b =~= head + (a + b));
    let ab = a + b;
    assert(head + ab + c =~= head + (ab + c));
    let abc = ab + c;
    assert(head + abc + d =~= head + (abc + d));
    let rest = abc + d;
    lemma_middle_occurs(head, rest, Seq::empty());
    assert(head + rest + Seq::empty() =~= head + rest);
}

/// The sizes are given in gigabytes too, the input before the output, exactly where one
/// of them comes to a hundredth of a gigabyte.
pub proof fn law_gigabytes_where_worth_it(input: nat, output: nat)
    ensures
        gigabytes_line(input, output).len() == (if 100 * input >= 1024 * 1024 * 1024 || 100 * output
            >= 1024 * 1024 * 1024 {
            1int
        } else {
            0
        }),
        gigabytes_line(input, output).len() == 1 ==> occurs(
            gigabytes_line(input, output)[0],
            tenths_text(input, 1024 * 1024 * 1024) + " GB → "@ + tenths_text(
                output,
                1024 * 1024 * 1024,
            ) + " GB)"@,
        ),
{
    lemma_rest_occurs(
        "                             ("@,
        tenths_text(input, GB as nat),
        " GB → "@,
        tenths_text(output, GB as nat),
        " GB)"@,
    );
}

} // verus!

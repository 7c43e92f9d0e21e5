//! The state of a run that can be resumed.
use vstd::hash_set::StringHashSet;
use vstd::prelude::*;
use vstd::string::*;

use crate::error::AppError;
use crate::paths::{
    components, file_name_of, join, joined_path, remainder, strip_prefix, temporary_of,
    temporary_path,
};
use crate::text::{
    hex, hex_digit, hex_number, hex_text, law_hex_stands_for_the_number, outcome, same_text,
    sixteen_to, texts,
};

verus! {

/// Persistent state for resumable conversion runs.
///
/// Saved atomically to `.shp2geojson_state.json` in the output root after each
/// completed job. When `--resume` is passed on a subsequent invocation, this file is
/// loaded and already-completed files are skipped.
#[derive(Debug, PartialEq, Eq)]
pub struct CheckpointState<T = String, L = Vec<String>> {
    /// Unique identifier for this run (8 hex chars).
    pub run_id: T,
    /// ISO 8601 timestamp when the run started.
    pub started: T,
    /// Path to the input root directory.
    pub input_root: T,
    /// Path to the output root directory.
    pub output_root: T,
    /// Relative `.shp` paths (relative to `input_root`) that completed successfully.
    pub done: L,
    /// Relative `.shp` paths that failed during conversion.
    pub failed: L,
    /// Relative `.shp` paths that are still pending.
    pub pending: L,
}

/// A checkpoint as a mathematical value.
pub type CheckpointModel = CheckpointState<Seq<char>, Seq<Seq<char>>>;

impl View for CheckpointState {
    type V = CheckpointModel;

    open spec fn view(&self) -> CheckpointModel {
        CheckpointState {
            run_id: self.run_id@,
            started: self.started@,
            input_root: self.input_root@,
            output_root: self.output_root@,
            done: texts(self.done@),
            failed: texts(self.failed@),
            pending: texts(self.pending@),
        }
    }
}

// ── Lists of files ──────────────────────────────────────────────────────────
/// `list` without the occurrences of `x`.
pub open spec fn without(list: Seq<Seq<char>>, x: Seq<char>) -> Seq<Seq<char>> {
    list.filter(|y: Seq<char>| y != x)
}

/// `list` with `x` at its end, unless `x` is in it.
pub open spec fn including(list: Seq<Seq<char>>, x: Seq<char>) -> Seq<Seq<char>> {
    if list.contains(x) {
        list
    } else {
        list.push(x)
    }
}

/// Whether `x` is in the list.
pub fn lists(list: &Vec<String>, x: &str) -> (r: bool)
    ensures
        r == texts(list@).contains(x@),
{
    let mut i: usize = 0;
    while i < list.len()
        invariant
            i <= list@.len(),
            forall|j: int| 0 <= j < i ==> texts(list@)[j] != x@,
        decreases list@.len() - i,
    {
        if same_text(list[i].as_str(), x) {
            assert(texts(list@)[i as int] == x@);
            return true;
        }
        i = i + 1;
    }
    false
}

/// Takes the occurrences of `x` out of the list.
pub(crate) fn remove_text(list: &mut Vec<String>, x: &str)
    ensures
        texts(final(list)@) == without(texts(old(list)@), x@),
{
    let ghost all = texts(list@);
    let mut kept: Vec<String> = Vec::new();
    let mut i: usize = 0;
    proof {
        reveal(Seq::filter);
        assert(texts(kept@) =~= without(all.take(0), x@));
    }
    while i < list.len()
        invariant
            i <= list@.len(),
            all == texts(list@),
            texts(kept@) == without(all.take(i as int), x@),
        decreases list@.len() - i,
    {
        let ghost before = texts(kept@);
        proof {
            reveal(Seq::filter);
            assert(all.take(i + 1).drop_last() =~= all.take(i as int));
            assert(all.take(i + 1).last() == all[i as int]);
        }
        if !same_text(list[i].as_str(), x) {
            kept.push(list[i].clone());
            assert(texts(kept@) =~= before.push(all[i as int]));
        }
        i = i + 1;
    }
    assert(all.take(all.len() as int) =~= all);
    *list = kept;
}

/// Puts `x` at the end of the list, unless it is in it.
fn include_text(list: &mut Vec<String>, x: &str)
    ensures
        texts(final(list)@) == including(texts(old(list)@), x@),
{
    if !lists(list, x) {
        list.push(String::from_str(x));
        assert(texts(list@) =~= texts(old(list)@).push(x@));
    }
}

// ── Marking files ───────────────────────────────────────────────────────────
/// The state with `x` moved from `pending` to `done`.
pub open spec fn marked_done(s: CheckpointModel, x: Seq<char>) -> CheckpointModel {
    CheckpointState { pending: without(s.pending, x), done: including(s.done, x), ..s }
}

/// The state with `x` moved from `pending` to `failed`.
pub open spec fn marked_failed(s: CheckpointModel, x: Seq<char>) -> CheckpointModel {
    CheckpointState { pending: without(s.pending, x), failed: including(s.failed, x), ..s }
}

/// What came of reading a state file.
#[derive(Debug, PartialEq, Eq)]
pub enum CheckpointRead {
    /// The file cannot be read, for this reason.
    Unreadable(String),
    /// The file does not hold a state, for this reason.
    Malformed(String),
    /// The file holds this state.
    Parsed(CheckpointState),
}

impl CheckpointState {
    /// Creates a new empty `CheckpointState` for a fresh run.
    pub fn new(run_id: String, started: String, input_root: String, output_root: String) -> (r: Self)
        ensures
            r@ == (CheckpointState {
                run_id: run_id@,
                started: started@,
                input_root: input_root@,
                output_root: output_root@,
                done: Seq::<Seq<char>>::empty(),
                failed: Seq::<Seq<char>>::empty(),
                pending: Seq::<Seq<char>>::empty(),
            }),
    {
        let r = CheckpointState {
            run_id,
            started,
            input_root,
            output_root,
            done: Vec::new(),
            failed: Vec::new(),
            pending: Vec::new(),
        };
        proof {
            assert(texts(r.done@) =~= Seq::empty());
            assert(texts(r.failed@) =~= Seq::empty());
            assert(texts(r.pending@) =~= Seq::empty());
        }
        r
    }

    /// The state that a file holds, given what came of reading it.
    ///
    /// The error is [`AppError::Checkpoint`] if the file cannot be read or parsed.
    pub fn load(path: &str, read: CheckpointRead) -> (r: Result<Self, AppError>)
        ensures
            match read {
                CheckpointRead::Parsed(state) => r == Ok::<Self, AppError>(state),
                CheckpointRead::Unreadable(cause) => r matches Err(e) && e@ == (
                AppError::Checkpoint { reason: "cannot read "@ + path@ + ": "@ + cause@ }),
                CheckpointRead::Malformed(cause) => r matches Err(e) && e@ == (AppError::Checkpoint {
                    reason: "failed to parse "@ + path@ + ": "@ + cause@,
                }),
            },
    {
        match read {
            CheckpointRead::Parsed(state) => Ok(state),
            CheckpointRead::Unreadable(cause) => {
                let mut reason = String::from_str("cannot read ");
                reason.append(path);
                reason.append(": ");
                reason.append(cause.as_str());
                Err(AppError::Checkpoint { reason })
            },
            CheckpointRead::Malformed(cause) => {
                let mut reason = String::from_str("failed to parse ");
                reason.append(path);
                reason.append(": ");
                reason.append(cause.as_str());
                Err(AppError::Checkpoint { reason })
            },
        }
    }

    /// Moves `relative_shp` from the `pending` list to `done`.
    ///
    /// If the entry is not found in `pending`, it is still added to `done`
    /// (idempotent for recovery scenarios).
    pub fn mark_done(&mut self, relative_shp: &str)
        ensures
            final(self)@ == marked_done(old(self)@, relative_shp@),
    {
        remove_text(&mut self.pending, relative_shp);
        include_text(&mut self.done, relative_shp);
    }

    /// Moves `relative_shp` from the `pending` list to `failed`.
    ///
    /// If the entry is not found in `pending`, it is still added to `failed`
    /// (idempotent for recovery scenarios).
    pub fn mark_failed(&mut self, relative_shp: &str)
        ensures
            final(self)@ == marked_failed(old(self)@, relative_shp@),
    {
        remove_text(&mut self.pending, relative_shp);
        include_text(&mut self.failed, relative_shp);
    }
}

// ── Saving ──────────────────────────────────────────────────────────────────
/// What has just happened while a state is being saved.
#[derive(Debug, PartialEq, Eq)]
pub enum SaveEvent<T = String> {
    /// The state was encoded as text, or could not be.
    Encoded(Result<(), T>),
    /// The text was written to the temporary file, or could not be.
    Written(Result<(), T>),
    /// The temporary file was renamed, or could not be.
    Renamed(Result<(), T>),
}

impl View for SaveEvent {
    type V = SaveEvent<Seq<char>>;

    open spec fn view(&self) -> SaveEvent<Seq<char>> {
        match self {
            SaveEvent::Encoded(r) => SaveEvent::Encoded(outcome(*r)),
            SaveEvent::Written(r) => SaveEvent::Written(outcome(*r)),
            SaveEvent::Renamed(r) => SaveEvent::Renamed(outcome(*r)),
        }
    }
}

/// What is to be done next to save a state.
#[derive(Debug, PartialEq, Eq)]
pub enum SaveStep<T = String> {
    /// Write the text to this temporary file.
    Write { tmp: T },
    /// Rename the temporary file to the state file.
    Rename { tmp: T, path: T },
    /// Nothing: the state is saved.
    Saved,
    /// Nothing: the state is not saved.
    Failed(AppError<T>),
}

impl View for SaveStep {
    type V = SaveStep<Seq<char>>;

    open spec fn view(&self) -> SaveStep<Seq<char>> {
        match self {
            SaveStep::Write { tmp } => SaveStep::Write { tmp: tmp@ },
            SaveStep::Rename { tmp, path } => SaveStep::Rename { tmp: tmp@, path: path@ },
            SaveStep::Saved => SaveStep::Saved,
            SaveStep::Failed(e) => SaveStep::Failed(e@),
        }
    }
}

/// What is to be done next to save a state at `path`.
pub open spec fn save_step(path: Seq<char>, event: SaveEvent<Seq<char>>) -> SaveStep<Seq<char>> {
    match event {
        SaveEvent::Encoded(Ok(_)) => SaveStep::Write { tmp: temporary_of(path) },
        SaveEvent::Encoded(Err(reason)) => SaveStep::Failed(AppError::Checkpoint { reason }),
        SaveEvent::Written(Ok(_)) => SaveStep::Rename { tmp: temporary_of(path), path },
        SaveEvent::Written(Err(source)) => SaveStep::Failed(
            AppError::Io { path: temporary_of(path), source },
        ),
        SaveEvent::Renamed(Ok(_)) => SaveStep::Saved,
        SaveEvent::Renamed(Err(source)) => SaveStep::Failed(AppError::Io { path, source }),
    }
}

impl CheckpointState {
    /// What is to be done next to save a state atomically at `path`: it is written to
    /// a temporary file (`{path}.tmp`) first, which is then renamed, so that the state
    /// file is never partially written.
    pub fn save(path: &str, event: SaveEvent) -> (r: SaveStep)
        ensures
            r@ == save_step(path@, event@),
            r@ matches SaveStep::Write { tmp } ==> file_name_of(path@) is Some ==> components(tmp)
                != components(path@),
    {
        match event {
            SaveEvent::Encoded(Ok(_)) => SaveStep::Write { tmp: temporary_path(path) },
            SaveEvent::Encoded(Err(reason)) => SaveStep::Failed(AppError::Checkpoint { reason }),
            SaveEvent::Written(Ok(_)) => SaveStep::Rename {
                tmp: temporary_path(path),
                path: String::from_str(path),
            },
            SaveEvent::Written(Err(source)) => SaveStep::Failed(
                AppError::Io { path: temporary_path(path), source },
            ),
            SaveEvent::Renamed(Ok(_)) => SaveStep::Saved,
            SaveEvent::Renamed(Err(source)) => SaveStep::Failed(
                AppError::Io { path: String::from_str(path), source },
            ),
        }
    }
}

/// The name of the state file, in the output root.
pub const STATE_FILE: &'static str = ".shp2geojson_state.json";

/// The path of the state file of an output root.
pub fn state_path(output_root: &str) -> (r: String)
    ensures
        r@ == joined_path(output_root@, STATE_FILE@),
{
    join(output_root, STATE_FILE)
}

/// Whether a run takes up the checkpoint of a prior one: it is asked to, and there is
/// one. Otherwise it starts afresh.
pub fn takes_up_checkpoint(resume: bool, state_exists: bool) -> (r: bool)
    ensures
        r == (resume && state_exists),
{
    resume && state_exists
}

// ── Names and lookups ───────────────────────────────────────────────────────
/// A short run ID, given the nanoseconds since the UNIX epoch.
///
/// It is the lower 32 bits of that number, as 8 lowercase hex digits.
pub fn generate_run_id(nanos: u128) -> (r: String)
    ensures
        r@ == hex((nanos % 0x1_0000_0000) as nat, 8),
{
    hex_text(nanos % 0x1_0000_0000, 8)
}

/// The path of `shp` relative to `input_root`.
///
/// There is none if `shp` is not under `input_root`.
pub fn relative_shp_path(shp: &str, input_root: &str) -> (r: Option<String>)
    ensures
        match r {
            Some(rel) => {
                &&& remainder(shp@, input_root@) == Some(rel@)
                &&& components(shp@) == components(input_root@) + components(rel@)
            },
            None => {
                &&& remainder(shp@, input_root@) is None
                &&& !components(input_root@).is_prefix_of(components(shp@))
            },
        },
{
    let r = strip_prefix(shp, input_root);
    proof {
        if let Some(rel) = &r {
            assert(components(shp@) =~= components(input_root@) + components(rel@));
        }
    }
    r
}

/// The set of paths in `done`, for fast lookup.
pub fn done_set(state: &CheckpointState) -> (r: StringHashSet)
    ensures
        r@ == state@.done.to_set(),
{
    let mut r = StringHashSet::new();
    let ghost all = texts(state.done@);
    let mut i: usize = 0;
    assert(r@ =~= all.take(0).to_set());
    while i < state.done.len()
        invariant
            i <= state.done@.len(),
            all == texts(state.done@),
            r@ == all.take(i as int).to_set(),
        decreases state.done@.len() - i,
    {
        let ghost before = r@;
        r.insert(state.done[i].clone());
        proof {
            let now = all.take(i + 1);
            assert(now =~= all.take(i as int).push(all[i as int]));
            assert forall|x: Seq<char>| r@.contains(x) == now.to_set().contains(x) by {
                if now.contains(x) {
                    let j = choose|j: int| 0 <= j < now.len() && now[j] == x;
                    if j < i {
                        assert(all.take(i as int)[j] == x);
                    }
                }
                if all.take(i as int).contains(x) {
                    let j = choose|j: int|
                        0 <= j < all.take(i as int).len() && all.take(i as int)[j] == x;
                    assert(now[j] == x);
                }
                assert(now[i as int] == all[i as int]);
            }
            assert(r@ =~= now.to_set());
        }
        i = i + 1;
    }
    assert(all.take(all.len() as int) =~= all);
    r
}

// ── Laws ────────────────────────────────────────────────────────────────────
/// What taking a file out of a list does.
pub proof fn lemma_without(list: Seq<Seq<char>>, x: Seq<char>)
    ensures
        !without(list, x).contains(x),
        forall|y: Seq<char>| y != x ==> without(list, x).contains(y) == list.contains(y),
        without(without(list, x), x) == without(list, x),
    decreases list.len(),
{
    reveal(Seq::filter);
    if list.len() > 0 {
        let front = list.drop_last();
        lemma_without(front, x);
        let kept = without(list, x);
        if list.last() != x {
            assert(kept == without(front, x).push(list.last()));
            assert(kept.drop_last() =~= without(front, x));
            assert forall|y: Seq<char>| #[trigger] kept.contains(y) == (without(front, x).contains(
                y,
            ) || y == list.last()) by {
                assert(kept[kept.len() - 1] == list.last());
                if without(front, x).contains(y) {
                    let j = choose|j: int|
                        0 <= j < without(front, x).len() && without(front, x)[j] == y;
                    assert(kept[j] == y);
                }
            }
        }
        assert forall|y: Seq<char>| y != x implies kept.contains(y) == list.contains(y) by {
            assert(list[list.len() - 1] == list.last());
            if list.contains(y) && y != list.last() {
                let j = choose|j: int| 0 <= j < list.len() && list[j] == y;
                assert(front[j] == y);
            }
            if front.contains(y) {
                let j = choose|j: int| 0 <= j < front.len() && front[j] == y;
                assert(list[j] == y);
            }
        }
    }
}

proof fn lemma_including(list: Seq<Seq<char>>, x: Seq<char>)
    ensures
        including(list, x).contains(x),
        forall|y: Seq<char>| y != x ==> including(list, x).contains(y) == list.contains(y),
        including(including(list, x), x) == including(list, x),
        list.no_duplicates() ==> including(list, x).no_duplicates(),
{
    let r = including(list, x);
    if !list.contains(x) {
        assert(r[r.len() - 1] == x);
        assert forall|y: Seq<char>| y != x implies r.contains(y) == list.contains(y) by {
            if list.contains(y) {
                let j = choose|j: int| 0 <= j < list.len() && list[j] == y;
                assert(r[j] == y);
            }
        }
    }
}

/// A file that is marked done is in `done` and no longer pending. Marking it again
/// changes nothing, no file occurs twice in `done` on that account, and no other
/// file moves.
pub proof fn law_mark_done(s: CheckpointModel, x: Seq<char>)
    ensures
        marked_done(s, x).done.contains(x),
        !marked_done(s, x).pending.contains(x),
        marked_done(marked_done(s, x), x) == marked_done(s, x),
        s.done.no_duplicates() ==> marked_done(s, x).done.no_duplicates(),
        marked_done(s, x).failed == s.failed,
        forall|y: Seq<char>|
            y != x ==> marked_done(s, x).done.contains(y) == s.done.contains(y) && marked_done(
                s,
                x,
            ).pending.contains(y) == s.pending.contains(y),
{
    lemma_without(s.pending, x);
    lemma_including(s.done, x);
}

/// A file that is marked failed is in `failed` and no longer pending. Marking it
/// again changes nothing, no file occurs twice in `failed` on that account, and no
/// other file moves.
pub proof fn law_mark_failed(s: CheckpointModel, x: Seq<char>)
    ensures
        marked_failed(s, x).failed.contains(x),
        !marked_failed(s, x).pending.contains(x),
        marked_failed(marked_failed(s, x), x) == marked_failed(s, x),
        s.failed.no_duplicates() ==> marked_failed(s, x).failed.no_duplicates(),
        marked_failed(s, x).done == s.done,
        forall|y: Seq<char>|
            y != x ==> marked_failed(s, x).failed.contains(y) == s.failed.contains(y)
                && marked_failed(s, x).pending.contains(y) == s.pending.contains(y),
{
    lemma_without(s.pending, x);
    lemma_including(s.failed, x);
}

/// The state file is touched by a rename alone, and only once the whole text has
/// been written elsewhere.
pub proof fn law_state_file_is_replaced_whole(path: Seq<char>, event: SaveEvent<Seq<char>>)
    ensures
        save_step(path, event) is Rename ==> event matches SaveEvent::Written(Ok(_)),
        save_step(path, event) matches SaveStep::Write { tmp } ==> tmp == temporary_of(path),
        save_step(path, event) is Saved ==> event matches SaveEvent::Renamed(Ok(_)),
{
}

/// A hexadecimal digit, in lower case.
pub open spec fn is_hex(c: char) -> bool {
    ('0' <= c && c <= '9') || ('a' <= c && c <= 'f')
}

proof fn lemma_hex_digits(n: nat, width: nat)
    ensures
        hex(n, width).len() == width,
        forall|i: int| 0 <= i < width ==> is_hex(#[trigger] hex(n, width)[i]),
    decreases width,
{
    if width > 0 {
        lemma_hex_digits(n / 16, (width - 1) as nat);
        assert(is_hex(hex_digit((n % 16) as int)));
        assert forall|i: int| 0 <= i < width implies is_hex(#[trigger] hex(n, width)[i]) by {
            if i < width - 1 {
                assert(hex(n, width)[i] == hex(n / 16, (width - 1) as nat)[i]);
            }
        }
    }
}

/// A run ID has 8 characters, and each is a hexadecimal digit.
pub proof fn law_run_id_has_eight_hex_digits(nanos: u128)
    ensures
        hex((nanos % 0x1_0000_0000) as nat, 8).len() == 8,
        forall|i: int|
            0 <= i < 8 ==> is_hex(#[trigger] hex((nanos % 0x1_0000_0000) as nat, 8)[i]),
{
    lemma_hex_digits((nanos % 0x1_0000_0000) as nat, 8);
}

/// Taking a file out of a list keeps all others, as often as they occur and in their
/// order.
pub proof fn law_without_keeps_the_order(list: Seq<Seq<char>>, x: Seq<char>, y: Seq<char>)
    ensures
        without(Seq::empty(), x) == Seq::<Seq<char>>::empty(),
        without(list.push(y), x) == (if y == x {
            without(list, x)
        } else {
            without(list, x).push(y)
        }),
{
    reveal(Seq::filter);
    assert(list.push(y).drop_last() =~= list);
}

/// Marking a file moves no other file: the others stay pending where they were, and what
/// is listed as done or failed stays there, with at most the one file behind it. What the
/// run is, and where, does not change.
pub proof fn law_marking_keeps_the_others(s: CheckpointModel, x: Seq<char>)
    ensures
        ({
            let (d, f) = (marked_done(s, x), marked_failed(s, x));
            &&& s.done.is_prefix_of(d.done) && d.done.len() <= s.done.len() + 1
            &&& s.failed.is_prefix_of(f.failed) && f.failed.len() <= s.failed.len() + 1
            &&& d.failed == s.failed && f.done == s.done
            &&& d.pending == f.pending
            &&& !d.pending.contains(x)
            &&& forall|y: Seq<char>|
                y != x ==> (#[trigger] d.pending.contains(y) <==> s.pending.contains(y))
            &&& d.run_id == s.run_id && f.run_id == s.run_id
            &&& d.started == s.started && f.started == s.started
            &&& d.input_root == s.input_root && f.input_root == s.input_root
            &&& d.output_root == s.output_root && f.output_root == s.output_root
        }),
{
    lemma_without(s.pending, x);
    let (d, f) = (marked_done(s, x), marked_failed(s, x));
    assert(s.done =~= d.done.subrange(0, s.done.len() as int));
    assert(s.failed =~= f.failed.subrange(0, s.failed.len() as int));
}

/// A state that can be encoded, written and renamed is saved: it is written to the
/// temporary file, which then becomes the state file. What goes wrong on the way ends it,
/// with the reason, and the file that it was about.
pub proof fn law_saving_goes_step_by_step(path: Seq<char>, cause: Seq<char>)
    ensures
        save_step(path, SaveEvent::Encoded(Ok(()))) == (SaveStep::Write {
            tmp: temporary_of(path),
        }),
        save_step(path, SaveEvent::Written(Ok(()))) == (SaveStep::Rename {
            tmp: temporary_of(path),
            path,
        }),
        save_step(path, SaveEvent::Renamed(Ok(()))) is Saved,
        save_step(path, SaveEvent::Encoded(Err(cause))) matches SaveStep::Failed(e) && e
            == (AppError::Checkpoint { reason: cause }),
        save_step(path, SaveEvent::Written(Err(cause))) matches SaveStep::Failed(e) && e == (
        AppError::Io { path: temporary_of(path), source: cause }),
        save_step(path, SaveEvent::Renamed(Err(cause))) matches SaveStep::Failed(e) && e == (
        AppError::Io { path, source: cause }),
{
}

/// A run ID stands for the lower 32 bits of the nanoseconds that it was made from: two
/// moments have the same one only where they agree in these.
pub proof fn law_run_id_tells_moments_apart(nanos: u128, nanos2: u128)
    ensures
        hex_number(hex((nanos % 0x1_0000_0000) as nat, 8)) == nanos % 0x1_0000_0000,
        nanos % 0x1_0000_0000 != nanos2 % 0x1_0000_0000 ==> hex(
            (nanos % 0x1_0000_0000) as nat,
            8,
        ) != hex((nanos2 % 0x1_0000_0000) as nat, 8),
{
    reveal_with_fuel(sixteen_to, 9);
    assert(sixteen_to(8) == 0x1_0000_0000);
    law_hex_stands_for_the_number((nanos % 0x1_0000_0000) as nat, 8);
    law_hex_stands_for_the_number((nanos2 % 0x1_0000_0000) as nat, 8);
}

} // verus!

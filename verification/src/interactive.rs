//! Commands that the user types while a run is going on.
use vstd::prelude::*;
use vstd::string::*;

use crate::text::{
    all_ascii, chars_of, decimal, is_space, law_decimal_stands_for_the_number,
    lemma_middle_occurs, lower_ascii, lower_text, lowercased, occurs, occurs_at, same_text, trim,
    trim_back, trim_front, trimmed,
};

verus! {

/// A command entered interactively during a conversion run.
#[derive(Debug, PartialEq, Eq)]
pub enum SlashCommand<T = String> {
    /// Print worker status and queue depth.
    Status,
    /// Pause all workers and write a checkpoint.
    Pause,
    /// Resume paused workers.
    Resume,
    /// Scale worker count to N.
    Workers(usize),
    /// Skip a pending file by path fragment.
    Skip(T),
    /// Show last 20 lines of the error log.
    Log,
    /// List remaining pending files.
    DryRun,
    /// Save checkpoint and exit after in-flight files complete.
    Quit,
    /// Show this help.
    Help,
}

impl View for SlashCommand {
    type V = SlashCommand<Seq<char>>;

    open spec fn view(&self) -> SlashCommand<Seq<char>> {
        match self {
            SlashCommand::Status => SlashCommand::Status,
            SlashCommand::Pause => SlashCommand::Pause,
            SlashCommand::Resume => SlashCommand::Resume,
            SlashCommand::Workers(n) => SlashCommand::Workers(*n),
            SlashCommand::Skip(path) => SlashCommand::Skip(path@),
            SlashCommand::Log => SlashCommand::Log,
            SlashCommand::DryRun => SlashCommand::DryRun,
            SlashCommand::Quit => SlashCommand::Quit,
            SlashCommand::Help => SlashCommand::Help,
        }
    }
}

/// The view of a command that may be absent.
pub open spec fn command_view(c: Option<SlashCommand>) -> Option<SlashCommand<Seq<char>>> {
    match c {
        Some(c) => Some(c@),
        None => None,
    }
}

/// A write to a [`PauseFlag`].
pub enum PauseWrite {
    /// It is set.
    SetPaused,
    /// It is cleared.
    Clear,
}

/// What a write makes of a flag.
pub open spec fn written(paused: bool, w: PauseWrite) -> bool {
    match w {
        PauseWrite::SetPaused => true,
        PauseWrite::Clear => false,
    }
}

/// Whether the workers are to pause.
#[derive(Debug, Clone, Copy, PartialEq, Eq, Structural)]
pub struct PauseFlag {
    paused: bool,
}

impl PauseFlag {
    pub closed spec fn spec_paused(&self) -> bool {
        self.paused
    }

    /// Creates a new flag that is not set (not paused).
    pub fn new() -> (r: Self)
        ensures
            !r.spec_paused(),
    {
        PauseFlag { paused: false }
    }

    /// Returns `true` if the flag is currently set (paused).
    pub fn is_paused(&self) -> (r: bool)
        ensures
            r == self.spec_paused(),
    {
        self.paused
    }

    /// Sets the flag (workers will idle).
    pub fn set_paused(&mut self)
        ensures
            final(self).spec_paused() == written(old(self).spec_paused(), PauseWrite::SetPaused),
    {
        self.paused = true;
    }

    /// Clears the flag (workers resume).
    pub fn clear(&mut self)
        ensures
            final(self).spec_paused() == written(old(self).spec_paused(), PauseWrite::Clear),
    {
        self.paused = false;
    }
}

impl Default for PauseFlag {
    fn default() -> (r: Self)
        ensures
            !r.spec_paused(),
    {
        PauseFlag::new()
    }
}

/// Help text printed by `/help`, styled with ANSI colors.
pub const HELP_TEXT: &'static str = "\
\x1b[38;5;60m──── Available Commands ─────────────────────────────────────────────\x1b[0m
  \x1b[38;5;69;1m/status\x1b[0m      \x1b[38;5;103mPrint worker status and queue depth\x1b[0m
  \x1b[38;5;69;1m/pause\x1b[0m       \x1b[38;5;103mPause all workers, write checkpoint\x1b[0m
  \x1b[38;5;69;1m/resume\x1b[0m      \x1b[38;5;103mResume paused workers\x1b[0m
  \x1b[38;5;69;1m/workers\x1b[0m \x1b[38;5;80mN\x1b[0m  \x1b[38;5;103mDynamically scale worker count up or down\x1b[0m
  \x1b[38;5;69;1m/skip\x1b[0m \x1b[38;5;80mFILE\x1b[0m  \x1b[38;5;103mSkip a pending file, mark as SKIPPED\x1b[0m
  \x1b[38;5;69;1m/log\x1b[0m         \x1b[38;5;103mTail conversion_errors.log inline\x1b[0m
  \x1b[38;5;69;1m/dry-run\x1b[0m     \x1b[38;5;103mPreview remaining pending files\x1b[0m
  \x1b[38;5;69;1m/quit\x1b[0m        \x1b[38;5;103mCheckpoint state and exit cleanly\x1b[0m
  \x1b[38;5;69;1m/help\x1b[0m        \x1b[38;5;103mShow this help\x1b[0m
\x1b[38;5;60m───────────────────────────────────────────────────────────────────────\x1b[0m
  \x1b[38;5;103mCtrl+C — pause and checkpoint  ·  Ctrl+C×2 — force quit\x1b[0m";

// ── Numbers ─────────────────────────────────────────────────────────────────
pub open spec fn is_digit(c: char) -> bool {
    '0' <= c && c <= '9'
}

pub open spec fn all_digits(s: Seq<char>) -> bool {
    forall|i: int| 0 <= i < s.len() ==> is_digit(#[trigger] s[i])
}

/// The number that decimal digits stand for.
pub open spec fn number_of(s: Seq<char>) -> nat
    decreases s.len(),
{
    if s.len() == 0 {
        0
    } else {
        number_of(s.drop_last()) * 10 + (s.last() as int - '0' as int) as nat
    }
}

/// The machine integer that a text stands for: decimal digits, after a `+` that may
/// be absent.
pub open spec fn parsed_count(s: Seq<char>) -> Option<usize> {
    let digits = if s.len() > 0 && s[0] == '+' {
        s.drop_first()
    } else {
        s
    };
    if digits.len() > 0 && all_digits(digits) && number_of(digits) <= usize::MAX {
        Some(number_of(digits) as usize)
    } else {
        None
    }
}

proof fn lemma_number_grows(s: Seq<char>, n: int)
    requires
        0 <= n <= s.len(),
        all_digits(s),
    ensures
        number_of(s.take(n)) <= number_of(s),
    decreases s.len() - n,
{
    if n < s.len() {
        assert(s.take(n + 1).drop_last() =~= s.take(n));
        assert(is_digit(s[n]));
        lemma_number_grows(s, n + 1);
    } else {
        assert(s.take(n) =~= s);
    }
}

/// The value of a decimal digit.
fn digit_value(c: char) -> (r: usize)
    requires
        is_digit(c),
    ensures
        r == c as int - '0' as int,
        r <= 9,
{
    (c as u32 - '0' as u32) as usize
}

/// Reads a machine integer: decimal digits, after a `+` that may be absent.
pub fn parse_count(s: &str) -> (r: Option<usize>)
    ensures
        r == parsed_count(s@),
{
    let v = chars_of(s);
    let start: usize = if v.len() > 0 && v[0] == '+' {
        1
    } else {
        0
    };
    if v.len() == start {
        return None;
    }
    let ghost digits = s@.skip(start as int);
    proof {
        if start == 1 {
            assert(digits =~= s@.drop_first());
        } else {
            assert(digits =~= s@);
        }
        assert(digits.take(0) =~= Seq::empty());
    }
    let mut n: usize = 0;
    let mut i: usize = start;
    while i < v.len()
        invariant
            start <= i <= v@.len(),
            v@ == s@,
            digits == s@.skip(start as int),
            digits.len() > 0,
            parsed_count(s@) == (if all_digits(digits) && number_of(digits) <= usize::MAX {
                Some(number_of(digits) as usize)
            } else {
                None
            }),
            forall|j: int| 0 <= j < i - start ==> is_digit(#[trigger] digits[j]),
            n == number_of(digits.take(i - start)),
        decreases v@.len() - i,
    {
        let c = v[i];
        assert(digits[i - start] == c);
        if c < '0' || c > '9' {
            assert(!is_digit(digits[i - start]));
            return None;
        }
        let d: usize = digit_value(c);
        proof {
            let upto = digits.take(i - start + 1);
            assert(upto.drop_last() =~= digits.take(i - start));
            assert(upto.last() == c);
            assert(number_of(upto) == n * 10 + d);
            if all_digits(digits) {
                lemma_number_grows(digits, i - start + 1);
            }
        }
        match n.checked_mul(10) {
            None => return None,
            Some(m) => match m.checked_add(d) {
                None => return None,
                Some(sum) => {
                    n = sum;
                },
            },
        }
        i = i + 1;
    }
    assert(digits.take(i - start) =~= digits);
    Some(n)
}

// ── Commands ────────────────────────────────────────────────────────────────
/// The position of the first white space.
pub open spec fn first_space(s: Seq<char>) -> Option<int>
    decreases s.len(),
{
    if s.len() == 0 {
        None
    } else {
        match first_space(s.drop_last()) {
            Some(i) => Some(i),
            None => if is_space(s.last()) {
                Some(s.len() - 1)
            } else {
                None
            },
        }
    }
}

/// What stands before the first white space.
pub open spec fn first_word(s: Seq<char>) -> Seq<char> {
    match first_space(s) {
        Some(i) => s.take(i),
        None => s,
    }
}

/// What stands behind the first white space, without the white space around it.
pub open spec fn argument(s: Seq<char>) -> Option<Seq<char>> {
    match first_space(s) {
        Some(i) => Some(trimmed(s.skip(i + 1))),
        None => None,
    }
}

/// The command with this name, given in lower case, and this argument.
pub open spec fn command_named(name: Seq<char>, arg: Option<Seq<char>>) -> Option<
    SlashCommand<Seq<char>>,
> {
    if name == "status"@ {
        Some(SlashCommand::Status)
    } else if name == "pause"@ {
        Some(SlashCommand::Pause)
    } else if name == "resume"@ {
        Some(SlashCommand::Resume)
    } else if name == "workers"@ {
        match arg {
            Some(a) => match parsed_count(a) {
                Some(n) => Some(SlashCommand::Workers(n)),
                None => None,
            },
            None => None,
        }
    } else if name == "skip"@ {
        match arg {
            Some(a) => if a.len() > 0 {
                Some(SlashCommand::Skip(a))
            } else {
                None
            },
            None => None,
        }
    } else if name == "log"@ {
        Some(SlashCommand::Log)
    } else if name == "dry-run"@ {
        Some(SlashCommand::DryRun)
    } else if name == "quit"@ {
        Some(SlashCommand::Quit)
    } else if name == "help"@ {
        Some(SlashCommand::Help)
    } else {
        None
    }
}

/// Whether a line is meant as a command: its first character, white space aside, is
/// `/`.
pub open spec fn is_command_line(line: Seq<char>) -> bool {
    trimmed(line).len() > 0 && trimmed(line)[0] == '/'
}

/// The command that a line stands for. Its name is taken in lower case: the letters `A`
/// to `Z` count as `a` to `z`, and other letters go by what `str::to_lowercase` makes of
/// them.
pub open spec fn parsed_command(line: Seq<char>) -> Option<SlashCommand<Seq<char>>> {
    if is_command_line(line) {
        let rest = trimmed(line).skip(1);
        command_named(lowercased(lower_text(first_word(rest))), argument(rest))
    } else {
        None
    }
}

/// The command that a line stands for, where it is written in ASCII: the letters `A`
/// to `Z` of its name count as `a` to `z`.
pub open spec fn parsed_ascii_command(line: Seq<char>) -> Option<SlashCommand<Seq<char>>> {
    if is_command_line(line) {
        let rest = trimmed(line).skip(1);
        command_named(lower_text(first_word(rest)), argument(rest))
    } else {
        None
    }
}

/// The command with this name, given in lower case, and this argument.
pub fn command_from(name: &str, arg: Option<&str>) -> (r: Option<SlashCommand>)
    ensures
        command_view(r) == command_named(
            name@,
            match arg {
                Some(a) => Some(a@),
                None => None,
            },
        ),
{
    if same_text(name, "status") {
        Some(SlashCommand::Status)
    } else if same_text(name, "pause") {
        Some(SlashCommand::Pause)
    } else if same_text(name, "resume") {
        Some(SlashCommand::Resume)
    } else if same_text(name, "workers") {
        match arg {
            Some(a) => match parse_count(a) {
                Some(n) => Some(SlashCommand::Workers(n)),
                None => None,
            },
            None => None,
        }
    } else if same_text(name, "skip") {
        match arg {
            Some(a) => if a.is_empty() {
                None
            } else {
                Some(SlashCommand::Skip(String::from_str(a)))
            },
            None => None,
        }
    } else if same_text(name, "log") {
        Some(SlashCommand::Log)
    } else if same_text(name, "dry-run") {
        Some(SlashCommand::DryRun)
    } else if same_text(name, "quit") {
        Some(SlashCommand::Quit)
    } else if same_text(name, "help") {
        Some(SlashCommand::Help)
    } else {
        None
    }
}

/// The position of the first white space.
fn find_space(v: &Vec<char>) -> (r: Option<usize>)
    ensures
        match r {
            Some(i) => first_space(v@) == Some(i as int) && i < v@.len(),
            None => first_space(v@) is None,
        },
{
    let mut i: usize = 0;
    assert(v@.take(0) =~= Seq::empty());
    while i < v.len()
        invariant
            i <= v@.len(),
            first_space(v@.take(i as int)) is None,
        decreases v@.len() - i,
    {
        assert(v@.take(i + 1).drop_last() =~= v@.take(i as int));
        if v[i].is_whitespace() {
            proof {
                lemma_first_space_stays(v@, i + 1);
            }
            return Some(i);
        }
        i = i + 1;
    }
    assert(v@.take(i as int) =~= v@);
    None
}

proof fn lemma_first_space_stays(s: Seq<char>, n: int)
    requires
        0 <= n <= s.len(),
        first_space(s.take(n)) is Some,
    ensures
        first_space(s) == first_space(s.take(n)),
    decreases s.len() - n,
{
    if n < s.len() {
        assert(s.take(n + 1).drop_last() =~= s.take(n));
        lemma_first_space_stays(s, n + 1);
    } else {
        assert(s.take(n) =~= s);
    }
}

/// The name of a command in lower case.
fn lower_case(word: &str) -> (r: String)
    ensures
        r@ == lowercased(lower_text(word@)),
        all_ascii(word@) ==> r@ == lower_text(word@),
{
    let lower = word.to_ascii_lowercase();
    let r = lower.as_str().to_lowercase();
    proof {
        if all_ascii(word@) {
            assert forall|i: int| 0 <= i < lower@.len() implies (#[trigger] lower@[i]) as int
                <= 0x7f by {
                assert(word@[i] as int <= 0x7f);
            }
            assert(lower_text(lower@) =~= lower@);
        }
    }
    r
}

/// Parses a single line into a [`SlashCommand`].
///
/// There is none where the line does not start with `/`, is an unknown command, or
/// has invalid arguments (e.g., `/workers abc`). White space around the line is
/// stripped, and the command name is case-insensitive.
pub fn parse_command(line: &str) -> (r: Option<SlashCommand>)
    ensures
        command_view(r) == parsed_command(line@),
        all_ascii(first_word(trimmed(line@).skip(1))) ==> command_view(r) == parsed_ascii_command(
            line@,
        ),
{
    let whole = trim(line);
    let v = chars_of(whole);
    if v.len() == 0 || v[0] != '/' {
        return None;
    }
    let rest = whole.substring_char(1, v.len());
    assert(rest@ =~= trimmed(line@).skip(1));
    let w = chars_of(rest);
    match find_space(&w) {
        Some(i) => {
            let word = rest.substring_char(0, i);
            assert(word@ =~= rest@.take(i as int));
            let tail = rest.substring_char(i + 1, w.len());
            assert(tail@ =~= rest@.skip(i + 1));
            let arg = trim(tail);
            let name = lower_case(word);
            command_from(name.as_str(), Some(arg))
        },
        None => {
            let name = lower_case(rest);
            command_from(name.as_str(), None)
        },
    }
}

/// What becomes of a line that the user typed.
#[derive(Debug, PartialEq, Eq)]
pub enum LineAction<T = String> {
    /// It is a command, which is handed on. The help text is printed at once.
    Forward { command: SlashCommand<T>, show_help: bool },
    /// It looks like a command, but is none.
    Complain(T),
    /// It is ignored.
    Ignore,
}

impl View for LineAction {
    type V = LineAction<Seq<char>>;

    open spec fn view(&self) -> LineAction<Seq<char>> {
        match self {
            LineAction::Forward { command, show_help } => LineAction::Forward {
                command: command@,
                show_help: *show_help,
            },
            LineAction::Complain(text) => LineAction::Complain(text@),
            LineAction::Ignore => LineAction::Ignore,
        }
    }
}

/// What becomes of a line that the user typed.
pub open spec fn line_action(line: Seq<char>) -> LineAction<Seq<char>> {
    match parsed_command(line) {
        Some(command) => LineAction::Forward { command, show_help: command is Help },
        None => if is_command_line(line) {
            LineAction::Complain(
                "Unknown command: "@ + trimmed(line) + ". Type /help for commands."@,
            )
        } else {
            LineAction::Ignore
        },
    }
}

/// Decides what becomes of a line that the user typed.
pub fn read_line(line: &str) -> (r: LineAction)
    ensures
        r@ == line_action(line@),
{
    match parse_command(line) {
        Some(command) => {
            let show_help = match &command {
                SlashCommand::Help => true,
                _ => false,
            };
            LineAction::Forward { command, show_help }
        },
        None => {
            let whole = trim(line);
            let v = chars_of(whole);
            if v.len() > 0 && v[0] == '/' {
                let mut text = String::from_str("Unknown command: ");
                text.append(whole);
                text.append(". Type /help for commands.");
                LineAction::Complain(text)
            } else {
                LineAction::Ignore
            }
        },
    }
}

pub open spec fn all_space(s: Seq<char>) -> bool {
    forall|i: int| 0 <= i < s.len() ==> is_space(#[trigger] s[i])
}

proof fn lemma_trim_front_pad(pad: Seq<char>, s: Seq<char>)
    requires
        all_space(pad),
    ensures
        trim_front(pad + s) == trim_front(s),
    decreases pad.len(),
{
    if pad.len() > 0 {
        assert(is_space(pad[0]));
        assert((pad + s).drop_first() =~= pad.drop_first() + s);
        assert forall|i: int| 0 <= i < pad.drop_first().len() implies is_space(
            #[trigger] pad.drop_first()[i],
        ) by {
            assert(pad.drop_first()[i] == pad[i + 1]);
        }
        lemma_trim_front_pad(pad.drop_first(), s);
    } else {
        assert(pad + s =~= s);
    }
}

proof fn lemma_trim_back_pad(s: Seq<char>, pad: Seq<char>)
    requires
        all_space(pad),
    ensures
        trim_back(s + pad) == trim_back(s),
    decreases pad.len(),
{
    if pad.len() > 0 {
        assert(is_space(pad[pad.len() - 1]));
        assert((s + pad).drop_last() =~= s + pad.drop_last());
        assert forall|i: int| 0 <= i < pad.drop_last().len() implies is_space(
            #[trigger] pad.drop_last()[i],
        ) by {
            assert(pad.drop_last()[i] == pad[i]);
        }
        lemma_trim_back_pad(s, pad.drop_last());
    } else {
        assert(s + pad =~= s);
    }
}

proof fn lemma_trim_front_then_pad(s: Seq<char>, pad: Seq<char>)
    requires
        all_space(pad),
    ensures
        trim_back(trim_front(s + pad)) == trim_back(trim_front(s)),
    decreases s.len(),
{
    if s.len() == 0 {
        assert(s + pad =~= pad + Seq::<char>::empty());
        lemma_trim_front_pad(pad, Seq::empty());
        assert(s =~= Seq::empty());
    } else if is_space(s[0]) {
        assert((s + pad).drop_first() =~= s.drop_first() + pad);
        lemma_trim_front_then_pad(s.drop_first(), pad);
    } else {
        lemma_trim_back_pad(s, pad);
    }
}

/// Trimming at the back goes no further than the last character that is not white space.
proof fn lemma_trim_back_stops(head: Seq<char>, rest: Seq<char>)
    requires
        head.len() > 0,
        !is_space(head.last()),
    ensures
        trim_back(head + rest) == head + trim_back(rest),
        trim_back(rest).len() > 0 ==> trim_back(rest)[0] == rest[0],
    decreases rest.len(),
{
    if rest.len() == 0 {
        assert(head + rest =~= head);
    } else {
        assert((head + rest).drop_last() =~= head + rest.drop_last());
        lemma_trim_back_stops(head, rest.drop_last());
    }
}

pub open spec fn no_space(s: Seq<char>) -> bool {
    forall|i: int| 0 <= i < s.len() ==> !is_space(#[trigger] s[i])
}

proof fn lemma_first_space(name: Seq<char>, rest: Seq<char>)
    requires
        no_space(name),
        rest.len() > 0 ==> is_space(rest[0]),
    ensures
        first_space(name + rest) == (if rest.len() > 0 {
            Some(name.len() as int)
        } else {
            None
        }),
    decreases name.len() + rest.len(),
{
    let s = name + rest;
    if rest.len() > 0 {
        assert(s.drop_last() =~= name + rest.drop_last());
        lemma_first_space(name, rest.drop_last());
    } else if name.len() > 0 {
        assert(s =~= name);
        assert(name.drop_last() + rest =~= name.drop_last());
        assert(!is_space(name[name.len() - 1]));
        assert forall|i: int| 0 <= i < name.drop_last().len() implies !is_space(
            #[trigger] name.drop_last()[i],
        ) by {
            assert(name.drop_last()[i] == name[i]);
        }
        lemma_first_space(name.drop_last(), rest);
    }
}

/// What a line with this name and this rest behind it is taken for.
proof fn lemma_line_with_name(before: Seq<char>, name: Seq<char>, rest: Seq<char>)
    requires
        all_space(before),
        no_space(name),
        rest.len() > 0 ==> is_space(rest[0]),
    ensures
        ({
            let line = before + seq!['/'] + name + rest;
            let tail = trim_back(rest);
            &&& is_command_line(line)
            &&& first_word(trimmed(line).skip(1)) == name
            &&& argument(trimmed(line).skip(1)) == (if tail.len() > 0 {
                Some(trimmed(tail.skip(1)))
            } else {
                None
            })
        }),
{
    let line = before + seq!['/'] + name + rest;
    let head = seq!['/'] + name;
    let tail = trim_back(rest);
    assert(line =~= before + (head + rest));
    lemma_trim_front_pad(before, head + rest);
    if name.len() > 0 {
        assert(!is_space(name[name.len() - 1]));
    }
    lemma_trim_back_stops(head, rest);
    assert(trimmed(line) == head + tail);
    assert((head + tail).skip(1) =~= name + tail);
    lemma_first_space(name, tail);
    if tail.len() > 0 {
        assert((name + tail).take(name.len() as int) =~= name);
        assert((name + tail).skip((name.len() + 1) as int) =~= tail.skip(1));
    } else {
        assert(name + tail =~= name);
    }
}

/// Two lines that differ only in the ASCII case of the command name stand for the same
/// command. A line is a `/`, with white space before it or not, a name without white
/// space, and a rest, which is empty or starts with white space.
pub proof fn law_name_is_case_insensitive(
    before: Seq<char>,
    name: Seq<char>,
    name2: Seq<char>,
    rest: Seq<char>,
)
    requires
        all_space(before),
        no_space(name),
        rest.len() > 0 ==> is_space(rest[0]),
        lower_text(name) == lower_text(name2),
    ensures
        parsed_command(before + seq!['/'] + name + rest) == parsed_command(
            before + seq!['/'] + name2 + rest,
        ),
{
    assert(lower_text(name).len() == name.len());
    assert(lower_text(name2).len() == name2.len());
    assert forall|i: int| 0 <= i < name2.len() implies !is_space(#[trigger] name2[i]) by {
        assert(lower_text(name)[i] == lower_ascii(name[i]));
        assert(lower_text(name2)[i] == lower_ascii(name2[i]));
        assert(!is_space(name[i]));
    }
    lemma_line_with_name(before, name, rest);
    lemma_line_with_name(before, name2, rest);
}

proof fn lemma_trim_front_part(s: Seq<char>)
    ensures
        0 <= s.len() - trim_front(s).len(),
        trim_front(s) == s.skip(s.len() - trim_front(s).len()),
        trim_front(s).len() > 0 ==> !is_space(trim_front(s).first()),
    decreases s.len(),
{
    if s.len() > 0 && is_space(s.first()) {
        lemma_trim_front_part(s.drop_first());
        assert(trim_front(s) =~= s.skip(s.len() - trim_front(s).len()));
    } else {
        assert(s.skip(0) =~= s);
    }
}

proof fn lemma_trim_back_part(s: Seq<char>)
    ensures
        trim_back(s).len() <= s.len(),
        trim_back(s) == s.take(trim_back(s).len() as int),
        trim_back(s).len() > 0 ==> !is_space(trim_back(s).last()),
    decreases s.len(),
{
    if s.len() > 0 && is_space(s.last()) {
        lemma_trim_back_part(s.drop_last());
        assert(trim_back(s) =~= s.take(trim_back(s).len() as int));
    } else {
        assert(s.take(s.len() as int) =~= s);
    }
}

/// A trimmed text is a part of the text, at this position, and has no white space at
/// either end.
proof fn lemma_trimmed_part(s: Seq<char>) -> (at: int)
    ensures
        occurs_at(s, trimmed(s), at),
        trimmed(s).len() > 0 ==> !is_space(trimmed(s).first()) && !is_space(trimmed(s).last()),
{
    let front = trim_front(s);
    lemma_trim_front_part(s);
    lemma_trim_back_part(front);
    let at = s.len() - front.len();
    assert(trimmed(s) =~= s.subrange(at, at + trimmed(s).len()));
    at
}

proof fn lemma_first_space_bound(s: Seq<char>)
    ensures
        first_space(s) matches Some(i) ==> 0 <= i < s.len(),
    decreases s.len(),
{
    if s.len() > 0 {
        lemma_first_space_bound(s.drop_last());
    }
}

/// What `/skip` is given stands in the line as it was typed, in its case and with the
/// white space inside it, and has no white space around it.
pub proof fn law_skip_argument_is_kept(line: Seq<char>, arg: Seq<char>)
    requires
        parsed_command(line) == Some(SlashCommand::Skip(arg)),
    ensures
        occurs(line, arg),
        arg.len() > 0,
        !is_space(arg.first()),
        !is_space(arg.last()),
{
    let whole = trimmed(line);
    let rest = whole.skip(1);
    lemma_first_space_bound(rest);
    let tail = rest.skip(first_space(rest).unwrap() + 1);
    let at = lemma_trimmed_part(line);
    let inner = lemma_trimmed_part(tail);
    let from = at + 1 + first_space(rest).unwrap() + 1 + inner;
    assert(arg == trimmed(tail));
    assert(line.subrange(from, from + arg.len()) =~= arg) by {
        assert forall|k: int| 0 <= k < arg.len() implies line[from + k] == arg[k] by {
            assert(arg[k] == tail.subrange(inner, inner + arg.len())[k]);
            assert(whole[from - at + k] == line.subrange(at, at + whole.len())[from - at + k]);
        }
    }
    assert(occurs_at(line, arg, from));
}

/// White space around a line makes no difference to the command that it stands for.
pub proof fn law_surrounding_space_is_ignored(
    before: Seq<char>,
    line: Seq<char>,
    after: Seq<char>,
)
    requires
        all_space(before),
        all_space(after),
    ensures
        parsed_command(before + line + after) == parsed_command(line),
        line_action(before + line + after) == line_action(line),
{
    assert(before + line + after =~= before + (line + after));
    lemma_trim_front_pad(before, line + after);
    lemma_trim_front_then_pad(line, after);
}

/// What does not start with `/` is no command, and is passed over in silence.
pub proof fn law_other_input_is_ignored(line: Seq<char>)
    requires
        !is_command_line(line),
    ensures
        parsed_command(line) is None,
        line_action(line) is Ignore,
{
}

// ── A session ───────────────────────────────────────────────────────────────
/// What came of the lines that the user typed: the commands that were handed on, and the
/// texts that were printed.
pub struct Heard {
    pub commands: Seq<SlashCommand<Seq<char>>>,
    pub printed: Seq<Seq<char>>,
}

/// What comes of one more line.
pub open spec fn heard_line(heard: Heard, line: Seq<char>) -> Heard {
    match line_action(line) {
        LineAction::Forward { command, show_help } => Heard {
            commands: heard.commands.push(command),
            printed: if show_help {
                heard.printed.push(HELP_TEXT@)
            } else {
                heard.printed
            },
        },
        LineAction::Complain(text) => Heard { printed: heard.printed.push(text), ..heard },
        LineAction::Ignore => heard,
    }
}

/// What comes of these lines, one after the other.
pub open spec fn heard_lines(lines: Seq<Seq<char>>) -> Heard
    decreases lines.len(),
{
    if lines.len() == 0 {
        Heard { commands: Seq::empty(), printed: Seq::empty() }
    } else {
        heard_line(heard_lines(lines.drop_last()), lines.last())
    }
}

/// What is printed for a line: the help text where it asks for help, a message where it
/// looks like a command and is none, and otherwise nothing.
pub open spec fn reply(line: Seq<char>) -> Option<Seq<char>> {
    if parsed_command(line) == Some(SlashCommand::<Seq<char>>::Help) {
        Some(HELP_TEXT@)
    } else if parsed_command(line) is None && is_command_line(line) {
        Some("Unknown command: "@ + trimmed(line) + ". Type /help for commands."@)
    } else {
        None
    }
}

/// Of any lines, the commands that are handed on are those that the lines stand for, in
/// their order. One message is printed for each line that looks like a command and is
/// none, and the help text once for each line that asks for it.
pub proof fn law_lines_are_answered_in_order(lines: Seq<Seq<char>>)
    ensures
        heard_lines(lines).commands == lines.filter_map(|line: Seq<char>| parsed_command(line)),
        heard_lines(lines).printed == lines.filter_map(|line: Seq<char>| reply(line)),
    decreases lines.len(),
{
    reveal(Seq::filter_map);
    let parse = |line: Seq<char>| parsed_command(line);
    let answer = |line: Seq<char>| reply(line);
    if lines.len() > 0 {
        law_lines_are_answered_in_order(lines.drop_last());
        let before = heard_lines(lines.drop_last());
        let after = heard_lines(lines);
        assert(after.commands =~= lines.filter_map(parse));
        assert(after.printed =~= lines.filter_map(answer));
    }
}

// ── The pause flag over time ────────────────────────────────────────────────
/// A new flag after these writes, one after the other.
pub open spec fn flag_after(writes: Seq<PauseWrite>) -> bool
    decreases writes.len(),
{
    if writes.len() == 0 {
        false
    } else {
        written(flag_after(writes.drop_last()), writes.last())
    }
}

/// A flag is what the last write made of it, whatever was written before. Without any
/// write it is not set.
pub proof fn law_last_write_counts(writes: Seq<PauseWrite>, w: PauseWrite)
    ensures
        !flag_after(Seq::empty()),
        flag_after(writes.push(w)) == (w is SetPaused),
{
}

// ── What is typed and what is meant ─────────────────────────────────────────
/// Trimming takes away white space at both ends, all of it, and nothing else.
pub proof fn law_trimming_takes_white_space(s: Seq<char>)
    ensures
        exists|a: Seq<char>, b: Seq<char>|
            #![trigger all_space(a), all_space(b)]
            all_space(a) && all_space(b) && s == a + trimmed(s) + b,
        trimmed(s).len() > 0 ==> !is_space(trimmed(s)[0]) && !is_space(
            trimmed(s)[trimmed(s).len() - 1],
        ),
{
    let front = trim_front(s);
    lemma_trim_front_part(s);
    lemma_trim_back_part(front);
    lemma_trim_front_rest(s);
    lemma_trim_back_rest(front);
    let a = s.take(s.len() - front.len());
    let b = front.skip(trimmed(s).len() as int);
    assert(s =~= a + trimmed(s) + b);
}

proof fn lemma_trim_front_rest(s: Seq<char>)
    ensures
        trim_front(s).len() <= s.len(),
        all_space(s.take(s.len() - trim_front(s).len())),
    decreases s.len(),
{
    if s.len() > 0 && is_space(s.first()) {
        lemma_trim_front_rest(s.drop_first());
        let t = s.drop_first();
        let n = s.len() - trim_front(s).len();
        assert forall|i: int| 0 <= i < s.take(n).len() implies is_space(
            #[trigger] s.take(n)[i],
        ) by {
            if i > 0 {
                assert(t.take(n - 1)[i - 1] == s[i]);
            }
        }
    }
}

proof fn lemma_trim_back_rest(s: Seq<char>)
    ensures
        trim_back(s).len() <= s.len(),
        all_space(s.skip(trim_back(s).len() as int)),
    decreases s.len(),
{
    if s.len() > 0 && is_space(s.last()) {
        lemma_trim_back_rest(s.drop_last());
        let t = s.drop_last();
        let n = trim_back(s).len() as int;
        assert forall|i: int| 0 <= i < s.skip(n).len() implies is_space(
            #[trigger] s.skip(n)[i],
        ) by {
            if n + i < t.len() {
                assert(t.skip(n)[i] == s[n + i]);
            }
        }
    }
}

/// What is read as a number is what is written for it: decimal digits, after a `+` or
/// not. Anything else is no number, and neither is one that is too large.
pub proof fn law_counts_are_read_back(n: nat, s: Seq<char>)
    ensures
        n <= usize::MAX ==> parsed_count(decimal(n)) == Some(n as usize),
        n <= usize::MAX ==> parsed_count(seq!['+'] + decimal(n)) == Some(n as usize),
        n > usize::MAX ==> parsed_count(decimal(n)) is None,
        parsed_count(Seq::empty()) is None,
        parsed_count(seq!['+']) is None,
        (exists|i: int| 0 < i < s.len() && !is_digit(#[trigger] s[i])) ==> parsed_count(s) is None,
        s.len() > 0 && !is_digit(s[0]) && s[0] != '+' ==> parsed_count(s) is None,
{
    law_decimal_stands_for_the_number(n);
    assert(is_digit(decimal(n)[0]));
    assert((seq!['+'] + decimal(n)).drop_first() =~= decimal(n));
    assert(seq!['+'].drop_first() =~= Seq::empty());
    if exists|i: int| 0 < i < s.len() && !is_digit(#[trigger] s[i]) {
        let i = choose|i: int| 0 < i < s.len() && !is_digit(#[trigger] s[i]);
        assert(s.drop_first()[i - 1] == s[i]);
    }
}

/// A line that starts with `/` and the name of a command, in any case, is that command.
/// `/workers` needs a number and `/skip` something to skip; what stands behind any other
/// is passed over. A name that is none of these is no command. Names are in ASCII here.
pub proof fn law_commands_go_by_name(before: Seq<char>, name: Seq<char>, rest: Seq<char>)
    requires
        all_space(before),
        no_space(name),
        rest.len() > 0 ==> is_space(rest[0]),
    ensures
        ({
            let parsed = parsed_ascii_command(before + seq!['/'] + name + rest);
            let called = lower_text(name);
            let arg = trimmed(rest);
            &&& called == "status"@ <==> parsed == Some(SlashCommand::<Seq<char>>::Status)
            &&& called == "pause"@ <==> parsed == Some(SlashCommand::<Seq<char>>::Pause)
            &&& called == "resume"@ <==> parsed == Some(SlashCommand::<Seq<char>>::Resume)
            &&& called == "log"@ <==> parsed == Some(SlashCommand::<Seq<char>>::Log)
            &&& called == "dry-run"@ <==> parsed == Some(SlashCommand::<Seq<char>>::DryRun)
            &&& called == "quit"@ <==> parsed == Some(SlashCommand::<Seq<char>>::Quit)
            &&& called == "help"@ <==> parsed == Some(SlashCommand::<Seq<char>>::Help)
            &&& called == "workers"@ ==> parsed == (match parsed_count(arg) {
                Some(n) => Some(SlashCommand::<Seq<char>>::Workers(n)),
                None => None,
            })
            &&& called == "skip"@ ==> parsed == (if arg.len() > 0 {
                Some(SlashCommand::Skip(arg))
            } else {
                None
            })
            &&& parsed matches Some(SlashCommand::Workers(_)) ==> called == "workers"@
            &&& parsed matches Some(SlashCommand::Skip(_)) ==> called == "skip"@
        }),
{
    reveal_strlit("status");
    reveal_strlit("pause");
    reveal_strlit("resume");
    reveal_strlit("workers");
    reveal_strlit("skip");
    reveal_strlit("log");
    reveal_strlit("dry-run");
    reveal_strlit("quit");
    reveal_strlit("help");
    assert("status"@.len() == 6 && "pause"@.len() == 5 && "resume"@.len() == 6 && "workers"@.len()
        == 7 && "skip"@.len() == 4 && "log"@.len() == 3 && "dry-run"@.len() == 7 && "quit"@.len()
        == 4 && "help"@.len() == 4);
    assert("status"@[0] == 's' && "resume"@[0] == 'r' && "workers"@[0] == 'w' && "dry-run"@[0] == 'd'
        && "skip"@[0] == 's' && "quit"@[0] == 'q' && "help"@[0] == 'h');
    lemma_line_with_name(before, name, rest);
    let tail = trim_back(rest);
    if tail.len() > 0 {
        let front = trim_front(rest);
        assert(trimmed(tail.skip(1)) == trimmed(rest)) by {
            lemma_trim_back_stops_or_not(rest);
            lemma_trim_back_part(rest);
            assert(tail[0] == rest[0]);
            assert(tail.drop_first() =~= tail.skip(1));
            assert(trim_front(tail) == trim_front(tail.skip(1)));
            let gone = rest.skip(tail.len() as int);
            lemma_trim_back_rest(rest);
            assert(rest =~= tail + gone);
            lemma_trim_front_then_pad(tail, gone);
        }
    } else {
        lemma_trim_back_rest(rest);
        assert(rest.skip(0) =~= rest);
        lemma_trim_front_pad(rest, Seq::empty());
        assert(rest + Seq::<char>::empty() =~= rest);
        assert(trimmed(rest).len() == 0);
        assert(parsed_count(Seq::<char>::empty()) is None);
        assert(trimmed(rest) =~= Seq::<char>::empty());
    }
}

proof fn lemma_trim_back_stops_or_not(s: Seq<char>)
    ensures
        trim_back(s).len() <= s.len(),
    decreases s.len(),
{
    if s.len() > 0 && is_space(s.last()) {
        lemma_trim_back_stops_or_not(s.drop_last());
    }
}

/// A line is handed on where it is a command, is answered with a message that quotes it
/// where it only looks like one, and is passed over otherwise. Help is shown for the
/// command that asks for it, and for no other.
pub proof fn law_lines_are_sorted(line: Seq<char>)
    ensures
        match line_action(line) {
            LineAction::Forward { command, show_help } => parsed_command(line) == Some(command)
                && show_help == (command is Help),
            LineAction::Complain(text) => parsed_command(line) is None && trimmed(line).len() > 0
                && trimmed(line)[0] == '/' && occurs(text, trimmed(line)),
            LineAction::Ignore => trimmed(line).len() == 0 || trimmed(line)[0] != '/',
        },
{
    lemma_middle_occurs("Unknown command: "@, trimmed(line), ". Type /help for commands."@);
}

} // verus!

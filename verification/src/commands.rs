//! What the commands that the user types lead to.
use vstd::prelude::*;
use vstd::string::*;

use crate::batch::{no_vars, Batch, BatchModel};
use crate::checkpoint::{lemma_without, remove_text, without, CheckpointState};
use crate::discover::optional;
use crate::effects::{effects_view, hook_effect, push_effect, push_hook, Effect, EffectModel};
use crate::hooks::substituted;
use crate::interactive::SlashCommand;
use crate::output::{LogLevel, OutputEvent};
use crate::paths::{join, joined_path};
use crate::plan::RunContext;
use crate::text::{
    decimal, decimal_text, ends_with, last_of, lemma_middle_occurs, lines, lines_of, occurs,
    occurs_at, texts, trim, trimmed,
};

verus! {

// ── Workers ─────────────────────────────────────────────────────────────────
/// The number of workers that are not done.
pub open spec fn active(done: Seq<bool>) -> nat
    decreases done.len(),
{
    if done.len() == 0 {
        0
    } else {
        active(done.drop_last()) + if done.last() {
            0nat
        } else {
            1nat
        }
    }
}

/// The number of workers that are not done.
pub fn count_active(done: &Vec<bool>) -> (r: usize)
    ensures
        r == active(done@),
{
    let mut n: usize = 0;
    let mut i: usize = 0;
    assert(done@.take(0) =~= Seq::empty());
    while i < done.len()
        invariant
            i <= done@.len(),
            n <= i,
            n == active(done@.take(i as int)),
        decreases done@.len() - i,
    {
        assert(done@.take(i + 1).drop_last() =~= done@.take(i as int));
        if !done[i] {
            n = n + 1;
        }
        i = i + 1;
    }
    assert(done@.take(done@.len() as int) =~= done@);
    n
}

/// Tells the last `k` workers that are not done to exit.
pub open spec fn stop_last(done: Seq<bool>, k: nat) -> Seq<EffectModel>
    decreases done.len(),
{
    if k == 0 || done.len() == 0 {
        Seq::empty()
    } else if done.last() {
        stop_last(done.drop_last(), k)
    } else {
        seq![Effect::SignalExit((done.len() - 1) as usize)] + stop_last(
            done.drop_last(),
            (k - 1) as nat,
        )
    }
}

/// Tells every worker to exit.
pub open spec fn stop_all(n: nat) -> Seq<EffectModel> {
    Seq::new(n, |i: int| Effect::SignalExit(i as usize))
}

/// Tells every worker that is not done to exit.
pub open spec fn stop_active(done: Seq<bool>) -> Seq<EffectModel>
    decreases done.len(),
{
    if done.len() == 0 {
        Seq::empty()
    } else if done.last() {
        stop_active(done.drop_last())
    } else {
        stop_active(done.drop_last()).push(Effect::SignalExit((done.len() - 1) as usize))
    }
}

fn push_stop_last(out: &mut Vec<Effect>, done: &Vec<bool>, k: usize)
    ensures
        effects_view(final(out)@) == effects_view(old(out)@) + stop_last(done@, k as nat),
{
    let ghost before = effects_view(out@);
    let mut i: usize = done.len();
    let mut left: usize = k;
    proof {
        assert(done@.take(i as int) =~= done@);
        assert(before + stop_last(done@, k as nat) == effects_view(out@) + stop_last(
            done@.take(i as int),
            left as nat,
        ));
    }
    while i > 0 && left > 0
        invariant
            i <= done@.len(),
            before + stop_last(done@, k as nat) == effects_view(out@) + stop_last(
                done@.take(i as int),
                left as nat,
            ),
        decreases i,
    {
        i = i - 1;
        proof {
            assert(done@.take(i + 1).drop_last() =~= done@.take(i as int));
            assert(done@.take(i + 1).last() == done@[i as int]);
        }
        if !done[i] {
            let ghost shown = effects_view(out@);
            let ghost rest = stop_last(done@.take(i as int), (left - 1) as nat);
            push_effect(out, Effect::SignalExit(i));
            assert(shown + (seq![Effect::<Seq<char>>::SignalExit(i)] + rest) =~= effects_view(out@)
                + rest);
            left = left - 1;
        }
    }
    assert(effects_view(out@) =~= before + stop_last(done@, k as nat));
}

fn push_stop_all(out: &mut Vec<Effect>, n: usize)
    ensures
        effects_view(final(out)@) == effects_view(old(out)@) + stop_all(n as nat),
{
    let ghost before = effects_view(out@);
    let mut i: usize = 0;
    assert(effects_view(out@) =~= before + stop_all(0));
    while i < n
        invariant
            i <= n,
            effects_view(out@) == before + stop_all(i as nat),
        decreases n - i,
    {
        push_effect(out, Effect::SignalExit(i));
        assert(effects_view(out@) =~= before + stop_all((i + 1) as nat));
        i = i + 1;
    }
}

pub(crate) fn push_stop_active(out: &mut Vec<Effect>, done: &Vec<bool>)
    ensures
        effects_view(final(out)@) == effects_view(old(out)@) + stop_active(done@),
{
    let ghost before = effects_view(out@);
    let mut i: usize = 0;
    assert(effects_view(out@) =~= before + stop_active(done@.take(0)));
    while i < done.len()
        invariant
            i <= done@.len(),
            effects_view(out@) == before + stop_active(done@.take(i as int)),
        decreases done@.len() - i,
    {
        assert(done@.take(i + 1).drop_last() =~= done@.take(i as int));
        assert(done@.take(i + 1).last() == done@[i as int]);
        if !done[i] {
            push_effect(out, Effect::SignalExit(i));
            assert(effects_view(out@) =~= before + stop_active(done@.take(i + 1)));
        }
        i = i + 1;
    }
    assert(done@.take(done@.len() as int) =~= done@);
}

// ── Pending files ───────────────────────────────────────────────────────────
/// The first file of a list that ends in `fragment`.
pub open spec fn first_match(list: Seq<Seq<char>>, fragment: Seq<char>) -> Option<Seq<char>>
    decreases list.len(),
{
    if list.len() == 0 {
        None
    } else {
        match first_match(list.drop_last(), fragment) {
            Some(found) => Some(found),
            None => if fragment.is_suffix_of(list.last()) {
                Some(list.last())
            } else {
                None
            },
        }
    }
}

proof fn lemma_first_match_stays(list: Seq<Seq<char>>, fragment: Seq<char>, n: int)
    requires
        0 <= n <= list.len(),
        first_match(list.take(n), fragment) is Some,
    ensures
        first_match(list, fragment) == first_match(list.take(n), fragment),
    decreases list.len() - n,
{
    if n < list.len() {
        assert(list.take(n + 1).drop_last() =~= list.take(n));
        lemma_first_match_stays(list, fragment, n + 1);
    } else {
        assert(list.take(n) =~= list);
    }
}

/// The first file of a list that ends in `fragment`.
fn find_match(list: &Vec<String>, fragment: &str) -> (r: Option<String>)
    ensures
        match r {
            Some(found) => first_match(texts(list@), fragment@) == Some(found@),
            None => first_match(texts(list@), fragment@) is None,
        },
{
    let ghost all = texts(list@);
    let mut i: usize = 0;
    assert(all.take(0) =~= Seq::empty());
    while i < list.len()
        invariant
            i <= list@.len(),
            all == texts(list@),
            first_match(all.take(i as int), fragment@) is None,
        decreases list@.len() - i,
    {
        proof {
            assert(all.take(i + 1).drop_last() =~= all.take(i as int));
            assert(all.take(i + 1).last() == all[i as int]);
        }
        if ends_with(list[i].as_str(), fragment) {
            proof {
                lemma_first_match_stays(all, fragment@, i + 1);
            }
            return Some(list[i].clone());
        }
        i = i + 1;
    }
    assert(all.take(i as int) =~= all);
    None
}

// ── Lists ───────────────────────────────────────────────────────────────────
/// Each text of a list, printed behind a label.
pub open spec fn printed(label: Seq<char>, list: Seq<Seq<char>>) -> Seq<EffectModel> {
    list.map_values(|text: Seq<char>| Effect::Print(label + text))
}

/// Prints each text of a list, from the `from`-th on, behind a label.
fn push_list(out: &mut Vec<Effect>, label: &str, list: &Vec<String>, from: usize)
    requires
        from <= list@.len(),
    ensures
        effects_view(final(out)@) == effects_view(old(out)@) + printed(
            label@,
            texts(list@).skip(from as int),
        ),
{
    let ghost before = effects_view(out@);
    let ghost shown = texts(list@).skip(from as int);
    let mut i: usize = from;
    assert(effects_view(out@) =~= before + printed(label@, shown.take(0)));
    while i < list.len()
        invariant
            from <= i <= list@.len(),
            shown == texts(list@).skip(from as int),
            effects_view(out@) == before + printed(label@, shown.take(i - from)),
        decreases list@.len() - i,
    {
        let mut text = String::from_str(label);
        text.append(list[i].as_str());
        push_effect(out, Effect::Print(text));
        proof {
            assert(shown.take(i + 1 - from) =~= shown.take(i - from).push(shown[i - from]));
            assert(effects_view(out@) =~= before + printed(label@, shown.take(i + 1 - from)));
        }
        i = i + 1;
    }
    assert(shown.take(i - from) =~= shown);
}

fn push_text(out: &mut Vec<Effect>, text: &str)
    ensures
        effects_view(final(out)@) == effects_view(old(out)@).push(Effect::Print(text@)),
{
    push_effect(out, Effect::Print(String::from_str(text)));
}

// ── Commands ────────────────────────────────────────────────────────────────
/// What the user reads of where a run stands.
pub open spec fn status_text(b: BatchModel, workers: nat, elapsed: Seq<char>) -> Seq<char> {
    "  \x1b[38;5;78m✓ "@ + decimal(b.converted as nat) + "\x1b[0m done  \x1b[38;5;203m✗ "@ + decimal(
        b.failed as nat,
    ) + "\x1b[0m failed  \x1b[38;5;80m⧖ "@ + decimal(b.checkpoint.pending.len())
        + "\x1b[0m pending\n  \x1b[38;5;69mworkers:\x1b[0m "@ + decimal(workers)
        + " active  \x1b[38;5;103m"@ + elapsed + " elapsed\x1b[0m"@
}

/// The number of workers that is aimed at: never none.
pub open spec fn target(n: usize) -> usize {
    if n > 0 {
        n
    } else {
        1
    }
}

/// What brings the number of active workers to `n`.
pub open spec fn scaling(done: Seq<bool>, n: usize) -> Seq<EffectModel> {
    if n > active(done) {
        seq![Effect::SpawnWorkers((n - active(done)) as usize)]
    } else {
        stop_last(done, (active(done) - n) as nat)
    }
}

/// The line under a list.
pub const RULE: &'static str = "────────────────────────────────────────────────────";

/// What a command leads to. `done` says of each worker whether it is done, `elapsed`
/// is the time since the run began as the user reads it, and `log` the error log,
/// where there is one.
pub open spec fn command_effects(
    ctx: &RunContext,
    b: BatchModel,
    cmd: SlashCommand<Seq<char>>,
    done: Seq<bool>,
    elapsed: Seq<char>,
    log: Option<Seq<char>>,
) -> Seq<EffectModel> {
    match cmd {
        SlashCommand::Status => seq![Effect::Print(status_text(b, active(done), elapsed))],
        SlashCommand::Pause => seq![
            Effect::SetPaused(true),
            Effect::SaveCheckpoint { aloud: true },
        ] + hook_effect(ctx.hooks, "on_pause"@, Map::empty()) + seq![
            Effect::Print(
                "Paused. Workers will idle after current file. Type /resume to continue."@,
            ),
            Effect::Emit(
                OutputEvent::Paused {
                    converted: b.converted,
                    failed: b.failed,
                    pending: b.checkpoint.pending.len() as usize,
                },
            ),
        ],
        SlashCommand::Resume => if b.pause {
            seq![
                Effect::SetPaused(false),
                Effect::Print("Resuming workers."@),
                Effect::Emit(OutputEvent::Resumed),
            ]
        } else {
            seq![Effect::Print("Not paused."@)]
        },
        SlashCommand::Workers(n) => scaling(done, target(n)) + seq![
            Effect::Print(
                "Workers: "@ + decimal(active(done)) + " → "@ + decimal(target(n) as nat),
            ),
            Effect::Emit(
                OutputEvent::WorkersChanged { from: active(done) as usize, to: target(n) },
            ),
        ],
        SlashCommand::Skip(path) => match first_match(b.checkpoint.pending, trimmed(path)) {
            None => seq![Effect::Print("  not found in pending queue: "@ + trimmed(path))],
            Some(found) => seq![
                Effect::SkipFile(found),
                Effect::SaveCheckpoint { aloud: true },
                Effect::Log {
                    level: LogLevel::Skipped,
                    shp: joined_path(ctx.input@, found),
                    reason: "user /skip command"@,
                },
                Effect::Print("  skipped: "@ + found),
                Effect::Emit(OutputEvent::FileSkippedByUser { file: found }),
            ],
        },
        SlashCommand::Log => match log {
            None => seq![Effect::Print("  error log not found"@)],
            Some(text) => seq![
                Effect::Print("── error log (last 20 lines) ──────────────────────"@),
            ] + printed("  "@, last_of(lines_of(text), 20)) + seq![Effect::Print(RULE@)],
        },
        SlashCommand::DryRun => seq![
            Effect::Print(
                "── Remaining pending ("@ + decimal(b.checkpoint.pending.len()) + ") ──"@,
            ),
        ] + printed("  pending  "@, b.checkpoint.pending) + seq![Effect::Print(RULE@)],
        SlashCommand::Quit => seq![Effect::SetPaused(false)] + stop_all(done.len()) + seq![
            Effect::SaveCheckpoint { aloud: true },
            Effect::Print("Saving checkpoint and exiting after in-flight files complete..."@),
        ],
        SlashCommand::Help => Seq::empty(),
    }
}

/// Where a run stands after a command.
pub open spec fn after_command(b: BatchModel, cmd: SlashCommand<Seq<char>>) -> BatchModel {
    match cmd {
        SlashCommand::Pause => Batch { pause: true, ..b },
        SlashCommand::Resume => Batch { pause: false, ..b },
        SlashCommand::Quit => Batch { pause: false, ..b },
        SlashCommand::Skip(path) => match first_match(b.checkpoint.pending, trimmed(path)) {
            None => b,
            Some(found) => Batch {
                checkpoint: CheckpointState {
                    pending: without(b.checkpoint.pending, found),
                    ..b.checkpoint
                },
                ..b
            },
        },
        _ => b,
    }
}

fn push_scaling(out: &mut Vec<Effect>, done: &Vec<bool>, current: usize, n: usize)
    requires
        current == active(done@),
    ensures
        effects_view(final(out)@) == effects_view(old(out)@) + scaling(done@, n),
{
    if n > current {
        push_effect(out, Effect::SpawnWorkers(n - current));
        assert(effects_view(out@) =~= effects_view(old(out)@) + scaling(done@, n));
    } else {
        push_stop_last(out, done, current - n);
    }
}

fn describe_scaling(current: usize, n: usize) -> (r: String)
    ensures
        r@ == "Workers: "@ + decimal(current as nat) + " → "@ + decimal(n as nat),
{
    let mut text = String::from_str("Workers: ");
    let from = decimal_text(current as u128);
    text.append(from.as_str());
    text.append(" → ");
    let to = decimal_text(n as u128);
    text.append(to.as_str());
    text
}

fn push_log(out: &mut Vec<Effect>, text: &str)
    ensures
        effects_view(final(out)@) == effects_view(old(out)@) + (seq![
            Effect::Print("── error log (last 20 lines) ──────────────────────"@),
        ] + printed("  "@, last_of(lines_of(text@), 20)) + seq![Effect::Print(RULE@)]),
{
    let list = lines(text);
    push_text(out, "── error log (last 20 lines) ──────────────────────");
    let from: usize = if list.len() > 20 {
        list.len() - 20
    } else {
        0
    };
    assert(texts(list@).skip(from as int) =~= last_of(lines_of(text@), 20));
    push_list(out, "  ", &list, from);
    push_text(out, RULE);
    assert(effects_view(out@) =~= effects_view(old(out)@) + (seq![
        Effect::Print("── error log (last 20 lines) ──────────────────────"@),
    ] + printed("  "@, last_of(lines_of(text@), 20)) + seq![Effect::Print(RULE@)]));
}

fn describe_pending(n: usize) -> (r: String)
    ensures
        r@ == "── Remaining pending ("@ + decimal(n as nat) + ") ──"@,
{
    let mut text = String::from_str("── Remaining pending (");
    let count = decimal_text(n as u128);
    text.append(count.as_str());
    text.append(") ──");
    text
}

fn labelled(label: &str, text: &str) -> (r: String)
    ensures
        r@ == label@ + text@,
{
    let mut s = String::from_str(label);
    s.append(text);
    s
}

impl Batch {
    fn describe_status(&self, workers: usize, elapsed: &str) -> (r: String)
        ensures
            r@ == status_text(self@, workers as nat, elapsed@),
    {
        let mut s = String::from_str("  \x1b[38;5;78m✓ ");
        let converted = decimal_text(self.converted as u128);
        s.append(converted.as_str());
        s.append("\x1b[0m done  \x1b[38;5;203m✗ ");
        let failed = decimal_text(self.failed as u128);
        s.append(failed.as_str());
        s.append("\x1b[0m failed  \x1b[38;5;80m⧖ ");
        let pending = decimal_text(self.checkpoint.pending.len() as u128);
        s.append(pending.as_str());
        s.append("\x1b[0m pending\n  \x1b[38;5;69mworkers:\x1b[0m ");
        let active = decimal_text(workers as u128);
        s.append(active.as_str());
        s.append(" active  \x1b[38;5;103m");
        s.append(elapsed);
        s.append(" elapsed\x1b[0m");
        s
    }

    fn skip_pending(&mut self, ctx: &RunContext, path: &str) -> (r: Vec<Effect>)
        ensures
            final(self)@ == after_command(old(self)@, SlashCommand::Skip(path@)),
            effects_view(r@) == command_effects(
                ctx,
                old(self)@,
                SlashCommand::Skip(path@),
                Seq::empty(),
                Seq::empty(),
                None,
            ),
    {
        let mut out: Vec<Effect> = Vec::new();
        let fragment = trim(path);
        match find_match(&self.checkpoint.pending, fragment) {
            None => {
                push_effect(
                    &mut out,
                    Effect::Print(labelled("  not found in pending queue: ", fragment)),
                );
            },
            Some(found) => {
                push_effect(&mut out, Effect::SkipFile(found.clone()));
                remove_text(&mut self.checkpoint.pending, found.as_str());
                push_effect(&mut out, Effect::SaveCheckpoint { aloud: true });
                push_effect(
                    &mut out,
                    Effect::Log {
                        level: LogLevel::Skipped,
                        shp: join(ctx.input.as_str(), found.as_str()),
                        reason: String::from_str("user /skip command"),
                    },
                );
                push_effect(&mut out, Effect::Print(labelled("  skipped: ", found.as_str())));
                push_effect(&mut out, Effect::Emit(OutputEvent::FileSkippedByUser { file: found }));
            },
        }
        assert(effects_view(out@) =~= command_effects(
            ctx,
            old(self)@,
            SlashCommand::Skip(path@),
            Seq::empty(),
            Seq::empty(),
            None,
        ));
        out
    }

    fn pause_all(&mut self, ctx: &RunContext) -> (r: Vec<Effect>)
        ensures
            final(self)@ == after_command(old(self)@, SlashCommand::Pause),
            effects_view(r@) == command_effects(
                ctx,
                old(self)@,
                SlashCommand::Pause,
                Seq::empty(),
                Seq::empty(),
                None,
            ),
    {
        let mut out: Vec<Effect> = Vec::new();
        self.pause.set_paused();
        push_effect(&mut out, Effect::SetPaused(true));
        push_effect(&mut out, Effect::SaveCheckpoint { aloud: true });
        let vars = no_vars();
        push_hook(&mut out, &ctx.hooks, "on_pause", &vars);
        push_text(
            &mut out,
            "Paused. Workers will idle after current file. Type /resume to continue.",
        );
        push_effect(
            &mut out,
            Effect::Emit(
                OutputEvent::Paused {
                    converted: self.converted,
                    failed: self.failed,
                    pending: self.checkpoint.pending.len(),
                },
            ),
        );
        assert(effects_view(out@) =~= command_effects(
            ctx,
            old(self)@,
            SlashCommand::Pause,
            Seq::empty(),
            Seq::empty(),
            None,
        ));
        out
    }

    /// Handles a command of the user, and says what it leads to. `done` says of each
    /// worker whether it is done, `elapsed` is the time since the run began as the
    /// user reads it, and `log` the error log, where there is one.
    pub fn handle_slash_command(
        &mut self,
        ctx: &RunContext,
        cmd: SlashCommand,
        done: &Vec<bool>,
        elapsed: &str,
        log: Option<String>,
    ) -> (r: Vec<Effect>)
        ensures
            final(self)@ == after_command(old(self)@, cmd@),
            effects_view(r@) == command_effects(
                ctx,
                old(self)@,
                cmd@,
                done@,
                elapsed@,
                optional(log),
            ),
    {
        let mut out: Vec<Effect> = Vec::new();
        match cmd {
            SlashCommand::Status => {
                let text = self.describe_status(count_active(done), elapsed);
                push_effect(&mut out, Effect::Print(text));
            },
            SlashCommand::Pause => {
                return self.pause_all(ctx);
            },
            SlashCommand::Resume => {
                if self.pause.is_paused() {
                    self.pause.clear();
                    push_effect(&mut out, Effect::SetPaused(false));
                    push_text(&mut out, "Resuming workers.");
                    push_effect(&mut out, Effect::Emit(OutputEvent::Resumed));
                } else {
                    push_text(&mut out, "Not paused.");
                }
            },
            SlashCommand::Workers(n) => {
                let n: usize = if n > 0 {
                    n
                } else {
                    1
                };
                let current: usize = count_active(done);
                push_scaling(&mut out, done, current, n);
                push_effect(&mut out, Effect::Print(describe_scaling(current, n)));
                push_effect(
                    &mut out,
                    Effect::Emit(OutputEvent::WorkersChanged { from: current, to: n }),
                );
            },
            SlashCommand::Skip(path) => {
                return self.skip_pending(ctx, path.as_str());
            },
            SlashCommand::Log => {
                match log {
                    None => push_text(&mut out, "  error log not found"),
                    Some(text) => push_log(&mut out, text.as_str()),
                }
            },
            SlashCommand::DryRun => {
                push_effect(
                    &mut out,
                    Effect::Print(describe_pending(self.checkpoint.pending.len())),
                );
                push_list(&mut out, "  pending  ", &self.checkpoint.pending, 0);
                assert(texts(self.checkpoint.pending@).skip(0) =~= texts(self.checkpoint.pending@));
                push_text(&mut out, RULE);
            },
            SlashCommand::Quit => {
                self.pause.clear();
                push_effect(&mut out, Effect::SetPaused(false));
                push_stop_all(&mut out, done.len());
                push_effect(&mut out, Effect::SaveCheckpoint { aloud: true });
                push_text(
                    &mut out,
                    "Saving checkpoint and exiting after in-flight files complete...",
                );
            },
            SlashCommand::Help => {},
        }
        assert(effects_view(out@) =~= command_effects(
            ctx,
            old(self)@,
            cmd@,
            done@,
            elapsed@,
            optional(log),
        ));
        out
    }
}

// ── Laws ────────────────────────────────────────────────────────────────────
proof fn lemma_stop_last(done: Seq<bool>, k: nat)
    requires
        k <= active(done),
        done.len() <= usize::MAX,
    ensures
        stop_last(done, k).len() == k,
        forall|i: int|
            0 <= i < k ==> (#[trigger] stop_last(done, k)[i] matches Effect::SignalExit(w) && w
                < done.len() && !done[w as int]),
        forall|i: int, j: int|
            0 <= i < j < k ==> #[trigger] stop_last(done, k)[i] != #[trigger] stop_last(done, k)[j],
    decreases done.len(),
{
    if k > 0 && done.len() > 0 {
        let front = done.drop_last();
        if done.last() {
            lemma_stop_last(front, k);
        } else {
            lemma_stop_last(front, (k - 1) as nat);
            let rest = stop_last(front, (k - 1) as nat);
            let all = stop_last(done, k);
            assert(all[0] == Effect::<Seq<char>>::SignalExit((done.len() - 1) as usize));
            assert(forall|i: int| 0 < i < k ==> #[trigger] all[i] == rest[i - 1]);
            assert forall|i: int, j: int| 0 <= i < j < k implies #[trigger] all[i] != #[trigger] all[j] by {
                assert(all[j] == rest[j - 1]);
                if i > 0 {
                    assert(all[i] == rest[i - 1]);
                }
            }
        }
    }
}

/// Scaling brings the number of active workers to the one that was asked for, and to
/// one where none was: either the workers that are lacking are started, or as many as
/// there are too many are told to exit, each of them active and none twice.
pub proof fn law_scaling_reaches_the_target(done: Seq<bool>, n: usize)
    requires
        done.len() <= usize::MAX,
    ensures
        target(n) >= 1,
        target(n) > active(done) ==> scaling(done, target(n)) == seq![
            Effect::<Seq<char>>::SpawnWorkers((target(n) - active(done)) as usize),
        ],
        target(n) <= active(done) ==> {
            let told = scaling(done, target(n));
            &&& active(done) - told.len() == target(n)
            &&& forall|i: int|
                0 <= i < told.len() ==> (#[trigger] told[i] matches Effect::SignalExit(w) && w
                    < done.len() && !done[w as int])
            &&& forall|i: int, j: int|
                0 <= i < j < told.len() ==> #[trigger] told[i] != #[trigger] told[j]
        },
{
    if target(n) <= active(done) {
        lemma_stop_last(done, (active(done) - target(n)) as nat);
    }
}

/// A command changes nothing but whether the run is paused, and which files are
/// pending; and a file leaves the pending ones only by a command to skip it.
pub proof fn law_commands_keep_the_results(b: BatchModel, cmd: SlashCommand<Seq<char>>)
    ensures
        ({
            let a = after_command(b, cmd);
            &&& a.converted == b.converted
            &&& a.failed == b.failed
            &&& a.results_received == b.results_received
            &&& a.jobs_enqueued == b.jobs_enqueued
            &&& a.bytes_processed == b.bytes_processed
            &&& a.quit_requested == b.quit_requested
            &&& a.checkpoint.run_id == b.checkpoint.run_id
            &&& a.checkpoint.started == b.checkpoint.started
            &&& a.checkpoint.input_root == b.checkpoint.input_root
            &&& a.checkpoint.output_root == b.checkpoint.output_root
            &&& a.checkpoint.done == b.checkpoint.done
            &&& a.checkpoint.failed == b.checkpoint.failed
            &&& !(cmd is Skip) ==> a.checkpoint == b.checkpoint
            &&& !(cmd is Pause) && !(cmd is Resume) && !(cmd is Quit) ==> a.pause == b.pause
        }),
{
}

/// Resuming undoes pausing, and pausing a run that is paused changes nothing.
pub proof fn law_resume_undoes_pause(b: BatchModel)
    requires
        !b.pause,
    ensures
        after_command(after_command(b, SlashCommand::Pause), SlashCommand::Resume) == b,
        after_command(after_command(b, SlashCommand::Pause), SlashCommand::Pause) == after_command(
            b,
            SlashCommand::Pause,
        ),
{
}

proof fn lemma_first_match(list: Seq<Seq<char>>, fragment: Seq<char>)
    ensures
        first_match(list, fragment) matches Some(found) ==> list.contains(found)
            && fragment.is_suffix_of(found),
        first_match(list, fragment) is None <==> forall|i: int|
            0 <= i < list.len() ==> !fragment.is_suffix_of(#[trigger] list[i]),
    decreases list.len(),
{
    if list.len() > 0 {
        let front = list.drop_last();
        lemma_first_match(front, fragment);
        assert(list[list.len() - 1] == list.last());
        assert(forall|i: int| 0 <= i < front.len() ==> #[trigger] list[i] == front[i]);
        if let Some(found) = first_match(front, fragment) {
            let i = choose|i: int| 0 <= i < front.len() && front[i] == found;
            assert(list[i] == found);
        } else if first_match(list, fragment) is None {
            assert forall|i: int| 0 <= i < list.len() implies !fragment.is_suffix_of(
                #[trigger] list[i],
            ) by {
                if i < front.len() {
                    assert(front[i] == list[i]);
                }
            }
        }
    }
}

/// A command to skip finds a pending file if and only if one ends in what was typed.
/// The file that it finds is pending before and not after.
pub proof fn law_skip_takes_a_pending_file(b: BatchModel, path: Seq<char>)
    ensures
        match first_match(b.checkpoint.pending, trimmed(path)) {
            Some(found) => {
                &&& b.checkpoint.pending.contains(found)
                &&& trimmed(path).is_suffix_of(found)
                &&& !after_command(b, SlashCommand::Skip(path)).checkpoint.pending.contains(found)
            },
            None => {
                &&& forall|i: int|
                    0 <= i < b.checkpoint.pending.len() ==> !trimmed(path).is_suffix_of(
                        #[trigger] b.checkpoint.pending[i],
                    )
                &&& after_command(b, SlashCommand::Skip(path)) == b
            },
        },
{
    lemma_first_match(b.checkpoint.pending, trimmed(path));
    if let Some(found) = first_match(b.checkpoint.pending, trimmed(path)) {
        lemma_without(b.checkpoint.pending, found);
    }
}

/// Where the effects tell workers to exit, exactly those that are not done are told.
pub proof fn law_active_workers_are_stopped(done: Seq<bool>)
    requires
        done.len() <= usize::MAX,
    ensures
        forall|i: int|
            0 <= i < done.len() ==> (stop_active(done).contains(Effect::SignalExit(i as usize))
                <==> !(#[trigger] done[i])),
        forall|k: int|
            0 <= k < stop_active(done).len() ==> (#[trigger] stop_active(done)[k] matches
                Effect::SignalExit(w) && w < done.len()),
        stop_active(done).len() == active(done),
    decreases done.len(),
{
    if done.len() > 0 {
        let front = done.drop_last();
        law_active_workers_are_stopped(front);
        let (told, before) = (stop_active(done), stop_active(front));
        let last = done.len() - 1;
        assert forall|i: int| 0 <= i < done.len() implies (told.contains(
            Effect::SignalExit(i as usize),
        ) <==> !(#[trigger] done[i])) by {
            let e = Effect::<Seq<char>>::SignalExit(i as usize);
            if before.contains(e) {
                let k = choose|k: int| 0 <= k < before.len() && before[k] == e;
                assert(told[k] == e);
            }
            if told.contains(e) {
                let k = choose|k: int| 0 <= k < told.len() && told[k] == e;
                if k < before.len() {
                    assert(before[k] == e);
                }
            }
            if i < last {
                assert(front[i] == done[i]);
            } else if !done[last] {
                assert(told[before.len() as int] == e);
            }
        }
    }
}

/// The number of active workers counts each worker that is not done.
pub proof fn law_active_workers_are_counted(done: Seq<bool>, more: bool)
    ensures
        active(Seq::empty()) == 0,
        active(done.push(more)) == active(done) + (if more {
            0nat
        } else {
            1nat
        }),
{
    assert(done.push(more).drop_last() =~= done);
}

/// The status tells the number of files that were converted and that failed, of those
/// that are pending, and of the workers that are active, each with what it counts.
#[verifier::spinoff_prover]
#[verifier::rlimit(40)]
pub proof fn law_status_tells_the_counts(b: BatchModel, workers: nat, elapsed: Seq<char>)
    ensures
        ({
            let s = status_text(b, workers, elapsed);
            &&& occurs(
                s,
                "  \x1b[38;5;78m✓ "@ + decimal(b.converted as nat)
                    + "\x1b[0m done  \x1b[38;5;203m✗ "@,
            )
            &&& occurs(
                s,
                "\x1b[0m done  \x1b[38;5;203m✗ "@ + decimal(b.failed as nat)
                    + "\x1b[0m failed  \x1b[38;5;80m⧖ "@,
            )
            &&& occurs(
                s,
                "\x1b[0m failed  \x1b[38;5;80m⧖ "@ + decimal(b.checkpoint.pending.len())
                    + "\x1b[0m pending\n  \x1b[38;5;69mworkers:\x1b[0m "@,
            )
            &&& occurs(
                s,
                "\x1b[0m pending\n  \x1b[38;5;69mworkers:\x1b[0m "@ + decimal(workers)
                    + " active  \x1b[38;5;103m"@,
            )
            &&& occurs(s, " active  \x1b[38;5;103m"@ + elapsed + " elapsed\x1b[0m"@)
        }),
{
    let (l0, l1, l2) = (
        "  \x1b[38;5;78m✓ "@,
        "\x1b[0m done  \x1b[38;5;203m✗ "@,
        "\x1b[0m failed  \x1b[38;5;80m⧖ "@,
    );
    let (l3, l4, l5) = (
        "\x1b[0m pending\n  \x1b[38;5;69mworkers:\x1b[0m "@,
        " active  \x1b[38;5;103m"@,
        " elapsed\x1b[0m"@,
    );
    let (n0, n1) = (decimal(b.converted as nat), decimal(b.failed as nat));
    let (n2, n3) = (decimal(b.checkpoint.pending.len()), decimal(workers));
    let done = l0 + n0 + l1;
    let failed = done + n1 + l2;
    let pending = failed + n2 + l3;
    let active = pending + n3 + l4;
    lemma_three_occur(Seq::empty(), l0, n0, l1);
    assert(Seq::empty() + l0 + n0 + l1 =~= done);
    lemma_occurs_before(done, n1, l2, done);
    lemma_occurs_before(failed, n2, l3, done);
    lemma_occurs_before(pending, n3, l4, done);
    lemma_occurs_before(active, elapsed, l5, done);
    lemma_three_occur(l0 + n0, l1, n1, l2);
    lemma_occurs_before(failed, n2, l3, l1 + n1 + l2);
    lemma_occurs_before(pending, n3, l4, l1 + n1 + l2);
    lemma_occurs_before(active, elapsed, l5, l1 + n1 + l2);
    lemma_three_occur(done + n1, l2, n2, l3);
    lemma_occurs_before(pending, n3, l4, l2 + n2 + l3);
    lemma_occurs_before(active, elapsed, l5, l2 + n2 + l3);
    lemma_three_occur(failed + n2, l3, n3, l4);
    lemma_occurs_before(active, elapsed, l5, l3 + n3 + l4);
    lemma_three_occur(pending + n3, l4, elapsed, l5);
}

/// What stands behind a text stands there.
proof fn lemma_three_occur(p: Seq<char>, a: Seq<char>, b: Seq<char>, c: Seq<char>)
    ensures
        occurs(p + a + b + c, a + b + c),
{
    let s = p + a + b + c;
    let pat = a + b + c;
    assert(s.subrange(p.len() as int, s.len() as int) =~= pat);
    assert(occurs_at(s, pat, p.len() as int));
}

/// What stands in a text stands in it however it goes on.
proof fn lemma_occurs_before(s: Seq<char>, a: Seq<char>, b: Seq<char>, pat: Seq<char>)
    requires
        occurs(s, pat),
    ensures
        occurs(s + a + b, pat),
{
    let i = choose|i: int| occurs_at(s, pat, i);
    assert((s + a + b).subrange(i, i + pat.len()) =~= s.subrange(i, i + pat.len()));
    assert(occurs_at(s + a + b, pat, i));
}

/// Pausing holds the workers, saves the checkpoint, and says where the run stands.
/// Resuming lets the workers go on, where they were held. Quitting lets them go on, tells
/// each of them to exit, and saves the checkpoint. The run is paused after the one, and
/// not after the others.
pub proof fn law_pause_resume_and_quit(
    ctx: &RunContext,
    b: BatchModel,
    done: Seq<bool>,
    elapsed: Seq<char>,
    log: Option<Seq<char>>,
)
    requires
        done.len() <= usize::MAX,
        b.checkpoint.pending.len() <= usize::MAX,
    ensures
        ({
            let effects = command_effects(ctx, b, SlashCommand::Pause, done, elapsed, log);
            &&& effects[0] == Effect::<Seq<char>>::SetPaused(true)
            &&& effects[1] is SaveCheckpoint
            &&& effects.last() matches Effect::Emit(
                OutputEvent::Paused { converted, failed, pending },
            ) && converted == b.converted && failed == b.failed && pending
                == b.checkpoint.pending.len()
            &&& after_command(b, SlashCommand::Pause).pause
        }),
        ({
            let effects = command_effects(ctx, b, SlashCommand::Resume, done, elapsed, log);
            &&& b.pause ==> effects.contains(Effect::SetPaused(false)) && effects.contains(
                Effect::Emit(OutputEvent::Resumed),
            )
            &&& !b.pause ==> forall|i: int|
                0 <= i < effects.len() ==> (#[trigger] effects[i]) is Print
            &&& !after_command(b, SlashCommand::Resume).pause
        }),
        ({
            let effects = command_effects(ctx, b, SlashCommand::Quit, done, elapsed, log);
            &&& effects[0] == Effect::<Seq<char>>::SetPaused(false)
            &&& forall|i: int|
                0 <= i < done.len() ==> effects.contains(#[trigger] exit_of(i))
            &&& exists|i: int| 0 <= i < effects.len() && (#[trigger] effects[i]) is SaveCheckpoint
            &&& !after_command(b, SlashCommand::Quit).pause
        }),
{
    let resume = command_effects(ctx, b, SlashCommand::Resume, done, elapsed, log);
    if b.pause {
        assert(resume[0] == Effect::<Seq<char>>::SetPaused(false));
        assert(resume[2] == Effect::<Seq<char>>::Emit(OutputEvent::Resumed));
    }
    let quit = command_effects(ctx, b, SlashCommand::Quit, done, elapsed, log);
    assert(quit[(done.len() + 1) as int] is SaveCheckpoint);
    assert forall|i: int| 0 <= i < done.len() implies quit.contains(#[trigger] exit_of(i)) by {
        assert(quit[i + 1] == exit_of(i));
    }
}

/// The worker in this place is told to exit.
pub open spec fn exit_of(i: int) -> EffectModel {
    Effect::SignalExit(i as usize)
}

/// A command to skip takes the first pending file that ends in what was typed. All
/// workers are told to skip it, the checkpoint is saved, and the file is named in the log
/// and in the event. Where there is none, nothing happens but a message that names what
/// was typed.
pub proof fn law_skip_takes_the_first_match(
    ctx: &RunContext,
    b: BatchModel,
    path: Seq<char>,
    done: Seq<bool>,
    elapsed: Seq<char>,
    log: Option<Seq<char>>,
    i: int,
)
    requires
        0 <= i < b.checkpoint.pending.len(),
        trimmed(path).is_suffix_of(b.checkpoint.pending[i]),
        forall|j: int|
            0 <= j < i ==> !trimmed(path).is_suffix_of(#[trigger] b.checkpoint.pending[j]),
    ensures
        ({
            let file = b.checkpoint.pending[i];
            let effects = command_effects(ctx, b, SlashCommand::Skip(path), done, elapsed, log);
            &&& effects.contains(Effect::SkipFile(file))
            &&& effects.contains(Effect::Emit(OutputEvent::FileSkippedByUser { file }))
            &&& exists|k: int|
                0 <= k < effects.len() && (#[trigger] effects[k] matches Effect::Log {
                    level,
                    shp,
                    reason: _,
                } && level == LogLevel::Skipped && shp == joined_path(ctx.input@, file))
            &&& exists|k: int| 0 <= k < effects.len() && (#[trigger] effects[k]) is SaveCheckpoint
            &&& !after_command(b, SlashCommand::Skip(path)).checkpoint.pending.contains(file)
            &&& forall|x: Seq<char>|
                x != file ==> (#[trigger] after_command(
                    b,
                    SlashCommand::Skip(path),
                ).checkpoint.pending.contains(x) <==> b.checkpoint.pending.contains(x))
        }),
{
    let list = b.checkpoint.pending;
    let file = list[i];
    let upto = list.take(i + 1);
    lemma_first_match(list.take(i), trimmed(path));
    assert(first_match(list.take(i), trimmed(path)) is None) by {
        assert forall|j: int| 0 <= j < list.take(i).len() implies !trimmed(path).is_suffix_of(
            #[trigger] list.take(i)[j],
        ) by {
            assert(list.take(i)[j] == list[j]);
        }
    }
    assert(upto.drop_last() =~= list.take(i));
    assert(upto.last() == file);
    lemma_first_match_stays(list, trimmed(path), i + 1);
    assert(first_match(list, trimmed(path)) == Some(file));
    lemma_without(list, file);
    let effects = command_effects(ctx, b, SlashCommand::Skip(path), done, elapsed, log);
    assert(effects[0] == Effect::<Seq<char>>::SkipFile(file));
    assert(effects[1] is SaveCheckpoint);
    assert(effects[2] is Log);
    assert(effects[4] == Effect::<Seq<char>>::Emit(OutputEvent::FileSkippedByUser { file }));
}

/// The pending files are listed one by one and in their order, under a line that tells
/// how many they are, and the log by its last 20 lines, or by all where there are fewer.
/// Looking at the run changes nothing about it.
pub proof fn law_looking_shows_all(
    ctx: &RunContext,
    b: BatchModel,
    done: Seq<bool>,
    elapsed: Seq<char>,
    text: Seq<char>,
)
    ensures
        ({
            let pending = b.checkpoint.pending;
            let effects = command_effects(ctx, b, SlashCommand::DryRun, done, elapsed, None);
            &&& effects.len() == pending.len() + 2
            &&& effects[0] matches Effect::Print(head) && occurs(head, decimal(pending.len()))
            &&& forall|i: int|
                0 <= i < pending.len() ==> #[trigger] effects[i + 1] == Effect::<Seq<char>>::Print(
                    "  pending  "@ + pending[i],
                )
        }),
        ({
            let lines = lines_of(text);
            let shown = if lines.len() < 20 {
                lines.len() as int
            } else {
                20
            };
            let effects = command_effects(ctx, b, SlashCommand::Log, done, elapsed, Some(text));
            &&& effects.len() == shown + 2
            &&& forall|i: int|
                0 <= i < shown ==> #[trigger] effects[i + 1] == Effect::<Seq<char>>::Print(
                    "  "@ + lines[lines.len() - shown + i],
                )
        }),
        forall|cmd: SlashCommand<Seq<char>>|
            (cmd is Status || cmd is Log || cmd is DryRun || cmd is Help || cmd is Workers)
                ==> #[trigger] after_command(b, cmd) == b,
        command_effects(ctx, b, SlashCommand::Help, done, elapsed, None).len() == 0,
        command_effects(ctx, b, SlashCommand::Status, done, elapsed, None) == seq![
            Effect::<Seq<char>>::Print(status_text(b, active(done), elapsed)),
        ],
{
    let n = decimal(b.checkpoint.pending.len());
    lemma_middle_occurs("── Remaining pending ("@, n, ") ──"@);
}

/// A change of the number of workers is announced with the number before and the one
/// that is aimed at.
pub proof fn law_scaling_is_announced(
    ctx: &RunContext,
    b: BatchModel,
    n: usize,
    done: Seq<bool>,
    elapsed: Seq<char>,
)
    requires
        done.len() <= usize::MAX,
    ensures
        command_effects(ctx, b, SlashCommand::Workers(n), done, elapsed, None).last() matches
            Effect::Emit(OutputEvent::WorkersChanged { from, to }) && from == active(done) && to == (
        if n == 0 {
            1
        } else {
            n
        }),
{
    law_active_workers_are_stopped(done);
    lemma_active_bound(done);
}

proof fn lemma_active_bound(done: Seq<bool>)
    ensures
        active(done) <= done.len(),
    decreases done.len(),
{
    if done.len() > 0 {
        lemma_active_bound(done.drop_last());
    }
}

/// Pausing runs the hook that is configured for it, once; no other command runs a hook.
pub proof fn law_pause_fires_its_hook(
    ctx: &RunContext,
    b: BatchModel,
    cmd: SlashCommand<Seq<char>>,
    done: Seq<bool>,
    elapsed: Seq<char>,
    log: Option<Seq<char>>,
    i: int,
)
    requires
        0 <= i < command_effects(ctx, b, cmd, done, elapsed, log).len(),
    ensures
        command_effects(ctx, b, cmd, done, elapsed, log)[i] is RunHook <==> cmd is Pause && i == 2
            && (ctx.hooks matches Some(h) && h.on_pause is Some),
        command_effects(ctx, b, cmd, done, elapsed, log)[i] matches Effect::RunHook {
            name,
            command,
        } ==> name == "on_pause"@ && command == substituted(
            ctx.hooks.unwrap().on_pause.unwrap()@,
            Map::empty(),
        ),
{
    reveal_strlit("on_pause");
    reveal_strlit("on_file_complete");
    reveal_strlit("on_file_failed");
    reveal_strlit("on_batch_done");
    assert("on_pause"@.len() == 8);
    if let SlashCommand::Workers(n) = cmd {
        lemma_stop_last_signals(done, (active(done) - target(n)) as nat);
    }
}

proof fn lemma_stop_last_signals(done: Seq<bool>, k: nat)
    ensures
        forall|i: int|
            0 <= i < stop_last(done, k).len() ==> #[trigger] stop_last(done, k)[i] is SignalExit,
    decreases done.len(),
{
    if done.len() > 0 && k > 0 {
        lemma_stop_last_signals(done.drop_last(), k);
        lemma_stop_last_signals(done.drop_last(), (k - 1) as nat);
    }
}

/// A checkpoint that a command asks to save is saved aloud: where that fails, the user is
/// told.
pub proof fn law_commands_save_aloud(
    ctx: &RunContext,
    b: BatchModel,
    cmd: SlashCommand<Seq<char>>,
    done: Seq<bool>,
    elapsed: Seq<char>,
    log: Option<Seq<char>>,
    i: int,
)
    requires
        0 <= i < command_effects(ctx, b, cmd, done, elapsed, log).len(),
    ensures
        command_effects(ctx, b, cmd, done, elapsed, log)[i] matches Effect::SaveCheckpoint {
            aloud,
        } ==> aloud && (cmd is Pause || cmd is Skip || cmd is Quit),
{
    if let SlashCommand::Workers(n) = cmd {
        lemma_stop_last_signals(done, (active(done) - target(n)) as nat);
    }
}

} // verus!

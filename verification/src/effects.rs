//! What the run asks to be done around it.
use vstd::hash_map::StringHashMap;
use vstd::prelude::*;
use vstd::string::*;

use crate::config::HooksConfig;
use crate::error::{message_of, AppError};
use crate::hooks::{fire_hook_if_configured, hook_command, hook_template, substituted, values_of};
use crate::output::{LogLevel, OutputEvent};

verus! {

/// Something to be done, in its turn.
#[derive(Debug, PartialEq, Eq)]
pub enum Effect<T = String> {
    /// Emit an event.
    Emit(OutputEvent<T>),
    /// Append a line to the error log.
    Log { level: LogLevel, shp: T, reason: T },
    /// Print a message for the user.
    Print(T),
    /// Report a problem among the diagnostics.
    Warn(T),
    /// Save the checkpoint. If that fails the user is told so, aloud, or it is
    /// reported among the diagnostics.
    SaveCheckpoint { aloud: bool },
    /// Run the command of a hook.
    RunHook { name: T, command: T },
    /// One more file is accounted for.
    AdvanceProgress,
    /// Remove a file, if it exists.
    RemoveFile(T),
    /// Pause all workers, or let them go on.
    SetPaused(bool),
    /// Tell the worker in this place to exit after its current job.
    SignalExit(usize),
    /// Start so many workers more.
    SpawnWorkers(usize),
    /// Tell all workers to skip this file.
    SkipFile(T),
}

impl View for Effect {
    type V = Effect<Seq<char>>;

    open spec fn view(&self) -> Effect<Seq<char>> {
        match self {
            Effect::Emit(event) => Effect::Emit(event@),
            Effect::Log { level, shp, reason } => Effect::Log {
                level: *level,
                shp: shp@,
                reason: reason@,
            },
            Effect::Print(text) => Effect::Print(text@),
            Effect::Warn(text) => Effect::Warn(text@),
            Effect::SaveCheckpoint { aloud } => Effect::SaveCheckpoint { aloud: *aloud },
            Effect::RunHook { name, command } => Effect::RunHook { name: name@, command: command@ },
            Effect::AdvanceProgress => Effect::AdvanceProgress,
            Effect::RemoveFile(path) => Effect::RemoveFile(path@),
            Effect::SetPaused(paused) => Effect::SetPaused(*paused),
            Effect::SignalExit(worker) => Effect::SignalExit(*worker),
            Effect::SpawnWorkers(n) => Effect::SpawnWorkers(*n),
            Effect::SkipFile(path) => Effect::SkipFile(path@),
        }
    }
}

/// Effects, as mathematical values.
pub type EffectModel = Effect<Seq<char>>;

pub open spec fn effects_view(effects: Seq<Effect>) -> Seq<EffectModel> {
    effects.map_values(|e: Effect| e@)
}

/// What to do about a hook: run its command, where it has one.
pub open spec fn hook_effect(
    hooks: Option<HooksConfig>,
    name: Seq<char>,
    vars: Map<Seq<char>, Seq<char>>,
) -> Seq<EffectModel> {
    match hook_command(hooks, name, vars) {
        Some(command) => seq![Effect::RunHook { name, command }],
        None => Seq::empty(),
    }
}

/// Adds what to do about a hook.
pub(crate) fn push_hook(
    out: &mut Vec<Effect>,
    hooks: &Option<HooksConfig>,
    name: &str,
    vars: &StringHashMap<String>,
)
    ensures
        effects_view(final(out)@) == effects_view(old(out)@) + hook_effect(
            *hooks,
            name@,
            values_of(vars),
        ),
{
    match fire_hook_if_configured(hooks, name, vars) {
        Some(command) => {
            out.push(Effect::RunHook { name: String::from_str(name), command });
        },
        None => {},
    }
    assert(effects_view(out@) =~= effects_view(old(out)@) + hook_effect(
        *hooks,
        name@,
        values_of(vars),
    ));
}

/// Adds an effect.
pub(crate) fn push_effect(out: &mut Vec<Effect>, effect: Effect)
    ensures
        effects_view(final(out)@) == effects_view(old(out)@).push(effect@),
{
    out.push(effect);
    assert(effects_view(out@) =~= effects_view(old(out)@).push(effect@));
}

/// What is said where a checkpoint cannot be saved.
pub fn save_warning(error: &AppError, aloud: bool) -> (r: String)
    ensures
        r@ == (if aloud {
            "warning: "@
        } else {
            ""@
        }) + "checkpoint save failed: "@ + message_of(error@),
{
    let mut text = String::from_str(
        if aloud {
            "warning: "
        } else {
            ""
        },
    );
    text.append("checkpoint save failed: ");
    let message = error.message();
    text.append(message.as_str());
    text
}

/// A hook leads to one command at most: its own template with the values put in, under
/// its own name. Without a template nothing is run.
pub proof fn law_hook_is_run_once(
    hooks: Option<HooksConfig>,
    name: Seq<char>,
    vars: Map<Seq<char>, Seq<char>>,
)
    ensures
        match hook_template(hooks, name) {
            Some(t) => hook_effect(hooks, name, vars).len() == 1 && hook_effect(hooks, name, vars)[0]
                == (Effect::<Seq<char>>::RunHook { name, command: substituted(t, vars) }),
            None => hook_effect(hooks, name, vars).len() == 0,
        },
{
}

} // verus!

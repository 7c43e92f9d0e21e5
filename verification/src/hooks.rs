//! Shell hooks: templates, quoting, and which command an event runs.
pub use vstd::hash_map::StringHashMap;
use vstd::prelude::*;
use vstd::string::*;

use crate::config::HooksConfig;
use crate::discover::optional;
use crate::text::{
    chars_of, find_from, first_at, lemma_first_at, lemma_middle_occurs, occurs, occurs_at,
    same_text, signed_decimal, signed_text, trim, trimmed,
};

verus! {

/// The values that the placeholders of a template stand for.
pub open spec fn values_of(vars: &StringHashMap<String>) -> Map<Seq<char>, Seq<char>> {
    vars@.map_values(|s: String| s@)
}

// ── Quoting ─────────────────────────────────────────────────────────────────
/// `v` with every single quote written as `'\''`.
pub open spec fn escaped(v: Seq<char>) -> Seq<char>
    decreases v.len(),
{
    if v.len() == 0 {
        Seq::empty()
    } else if v[0] == '\'' {
        seq!['\'', '\\', '\'', '\''] + escaped(v.drop_first())
    } else {
        seq![v[0]] + escaped(v.drop_first())
    }
}

/// `v` as one word of a shell command, in single quotes.
pub open spec fn quoted(v: Seq<char>) -> Seq<char> {
    seq!['\''] + escaped(v) + seq!['\'']
}

/// Shell-quotes a value by wrapping it in single quotes and escaping the single
/// quotes within: `'` becomes `'\''`.
pub fn shell_quote(s: &str) -> (r: String)
    ensures
        r@ == quoted(s@),
{
    let v = chars_of(s);
    proof {
        reveal_strlit("'");
        reveal_strlit("'\\''");
        assert(s@.skip(0) =~= s@);
    }
    let mut r = String::from_str("'");
    let mut from: usize = 0;
    let mut i: usize = 0;
    while i < v.len()
        invariant
            v@ == s@,
            from <= i <= v@.len(),
            "'\\''"@ == seq!['\'', '\\', '\'', '\''],
            r@ + s@.subrange(from as int, i as int) + escaped(s@.skip(i as int)) == seq!['\'']
                + escaped(s@),
        decreases v@.len() - i,
    {
        let ghost rest = s@.skip(i as int);
        let ghost run = s@.subrange(from as int, i as int);
        let ghost before = r@;
        assert(rest.drop_first() =~= s@.skip(i + 1));
        assert(rest[0] == v@[i as int]);
        if v[i] == '\'' {
            r.append(s.substring_char(from, i));
            r.append("'\\''");
            from = i + 1;
            assert(r@ + s@.subrange(from as int, i + 1) + escaped(s@.skip(i + 1)) =~= before + run
                + escaped(rest));
        } else {
            assert(before + s@.subrange(from as int, i + 1) + escaped(s@.skip(i + 1)) =~= before
                + run + escaped(rest));
        }
        i = i + 1;
    }
    r.append(s.substring_char(from, i));
    r.append("'");
    assert(s@.skip(i as int) =~= Seq::empty());
    assert(r@ =~= quoted(s@));
    r
}

/// What a POSIX shell makes of text that consists of single-quoted parts and
/// backslashed characters: the one word that it reads. `None` where the text holds
/// anything else outside quotes, or ends inside them.
pub open spec fn shell_word(s: Seq<char>, inside: bool) -> Option<Seq<char>>
    decreases s.len(),
{
    if s.len() == 0 {
        if inside {
            None
        } else {
            Some(Seq::empty())
        }
    } else if s[0] == '\'' {
        shell_word(s.drop_first(), !inside)
    } else if inside {
        match shell_word(s.drop_first(), true) {
            Some(word) => Some(seq![s[0]] + word),
            None => None,
        }
    } else if s[0] == '\\' && s.len() >= 2 {
        match shell_word(s.skip(2), false) {
            Some(word) => Some(seq![s[1]] + word),
            None => None,
        }
    } else {
        None
    }
}

proof fn lemma_escaped_reads_back(v: Seq<char>)
    ensures
        shell_word(escaped(v) + seq!['\''], true) == Some(v),
    decreases v.len(),
{
    let s = escaped(v) + seq!['\''];
    if v.len() == 0 {
        assert(s.drop_first() =~= Seq::empty());
        assert(shell_word(Seq::<char>::empty(), false) == Some(Seq::<char>::empty()));
        assert(v =~= Seq::empty());
    } else {
        let tail = escaped(v.drop_first()) + seq!['\''];
        lemma_escaped_reads_back(v.drop_first());
        assert(seq![v[0]] + v.drop_first() =~= v);
        if v[0] == '\'' {
            let s1 = s.drop_first();
            assert(s1[0] == '\\' && s1[1] == '\'');
            let s3 = s1.skip(2);
            assert(s3[0] == '\'');
            assert(s3.drop_first() =~= tail);
            assert(shell_word(s3, false) == shell_word(tail, true));
            assert(shell_word(s1, false) == Some(seq!['\''] + v.drop_first()));
            assert(shell_word(s, true) == shell_word(s1, false));
        } else {
            assert(s.drop_first() =~= tail);
        }
    }
}

/// The shell reads a quoted value as one word, and that word is the value: nothing
/// in it is taken for shell syntax.
pub proof fn law_quoted_value_is_one_word(v: Seq<char>)
    ensures
        shell_word(quoted(v), false) == Some(v),
{
    lemma_escaped_reads_back(v);
    assert(quoted(v).drop_first() =~= escaped(v) + seq!['\'']);
}

// ── Templates ───────────────────────────────────────────────────────────────
pub open spec fn open_mark() -> Seq<char> {
    seq!['{', '{']
}

pub open spec fn close_mark() -> Seq<char> {
    seq!['}', '}']
}

/// What stands in place of `{{key}}`: the quoted value, or the placeholder itself
/// where there is none.
pub open spec fn replacement(key: Seq<char>, vars: Map<Seq<char>, Seq<char>>) -> Seq<char> {
    if vars.contains_key(key) {
        quoted(vars[key])
    } else {
        open_mark() + key + close_mark()
    }
}

/// The template with its placeholders replaced, from left to right. What is put in
/// is not looked at again, and `{{` without `}}` stays as it is.
pub open spec fn substituted(t: Seq<char>, vars: Map<Seq<char>, Seq<char>>) -> Seq<char>
    decreases t.len(),
{
    match first_at(t, open_mark(), 0) {
        None => t,
        Some(open) => if 0 <= open && open + 2 <= t.len() {
            let rest = t.skip(open + 2);
            match first_at(rest, close_mark(), 0) {
                None => t.take(open) + open_mark() + substituted(rest, vars),
                Some(close) => if 0 <= close && close + 2 <= rest.len() {
                    t.take(open) + replacement(rest.take(close), vars) + substituted(
                        rest.skip(close + 2),
                        vars,
                    )
                } else {
                    t
                },
            }
        } else {
            t
        },
    }
}

/// Searching from a position is searching what follows it.
proof fn lemma_first_at_skip(s: Seq<char>, pat: Seq<char>, from: int, k: int)
    requires
        0 <= from <= s.len(),
        0 <= k,
    ensures
        first_at(s.skip(from), pat, k) == (match first_at(s, pat, from + k) {
            Some(i) => Some(i - from),
            None => None::<int>,
        }),
    decreases s.len() + 1 - from - k,
{
    let t = s.skip(from);
    if k + pat.len() <= t.len() {
        assert(t.subrange(k, k + pat.len()) =~= s.subrange(from + k, from + k + pat.len()));
        if !occurs_at(t, pat, k) {
            lemma_first_at_skip(s, pat, from, k + 1);
        }
    }
}

/// Replaces `{{key}}` placeholders in `template` with shell-quoted values from
/// `vars`.
///
/// The template is scanned once, from left to right. Unknown placeholders are left
/// as they are, and so is a `{{` that no `}}` follows.
pub fn substitute_template(template: &str, vars: &StringHashMap<String>) -> (r: String)
    ensures
        r@ == substituted(template@, values_of(vars)),
{
    let t = chars_of(template);
    let open_marks = chars_of("{{");
    let close_marks = chars_of("}}");
    let ghost values = values_of(vars);
    proof {
        reveal_strlit("{{");
        reveal_strlit("}}");
        assert("{{"@ =~= open_mark());
        assert("}}"@ =~= close_mark());
        assert(template@.skip(0) =~= template@);
    }
    let len: usize = t.len();
    let mut result = String::new();
    let mut at: usize = 0;
    loop
        invariant
            t@ == template@,
            len == t@.len(),
            open_marks@ == open_mark(),
            close_marks@ == close_mark(),
            "{{"@ == open_mark(),
            "}}"@ == close_mark(),
            values == values_of(vars),
            at <= t@.len(),
            result@ + substituted(template@.skip(at as int), values) == substituted(
                template@,
                values,
            ),
        decreases t@.len() - at,
    {
        let ghost here = template@.skip(at as int);
        let ghost before = result@;
        let found = find_from(&t, &open_marks, at);
        proof {
            lemma_first_at_skip(template@, open_mark(), at as int, 0);
        }
        match found {
            None => {
                result.append(template.substring_char(at, len));
                assert(template@.subrange(at as int, len as int) =~= here);
                return result;
            },
            Some(open) => {
                result.append(template.substring_char(at, open));
                let ghost gap = open - at;
                assert(template@.subrange(at as int, open as int) =~= here.take(gap));
                let inner: usize = open + 2;
                let ghost rest = here.skip(gap + 2);
                assert(rest =~= template@.skip(inner as int));
                let end = find_from(&t, &close_marks, inner);
                proof {
                    lemma_first_at_skip(template@, close_mark(), inner as int, 0);
                }
                match end {
                    Some(close) => {
                        let key = template.substring_char(inner, close);
                        let ghost width = close - inner;
                        assert(key@ =~= rest.take(width));
                        match vars.get(key) {
                            Some(value) => {
                                let q = shell_quote(value.as_str());
                                result.append(q.as_str());
                                assert(values.contains_key(key@));
                            },
                            None => {
                                result.append("{{");
                                result.append(key);
                                result.append("}}");
                                assert(!values.contains_key(key@));
                            },
                        }
                        at = close + 2;
                        assert(rest.skip(width + 2) =~= template@.skip(at as int));
                        assert(result@ =~= before + here.take(gap) + replacement(key@, values));
                        assert(result@ + substituted(template@.skip(at as int), values) =~= before
                            + substituted(here, values));
                    },
                    None => {
                        result.append("{{");
                        at = inner;
                        assert(result@ + substituted(template@.skip(at as int), values) =~= before
                            + substituted(here, values));
                    },
                }
            },
        }
    }
}

/// A template without `{{` is left unchanged, whatever the values are.
pub proof fn law_plain_template_is_unchanged(t: Seq<char>, vars: Map<Seq<char>, Seq<char>>)
    requires
        !occurs(t, open_mark()),
    ensures
        substituted(t, vars) == t,
{
    lemma_first_at(t, open_mark(), 0);
}

/// The first placeholder of a template is replaced, and the rest of the template is
/// treated on its own: neither what stands before nor the value put in is scanned
/// for placeholders.
pub proof fn law_first_placeholder_is_replaced(
    front: Seq<char>,
    key: Seq<char>,
    back: Seq<char>,
    vars: Map<Seq<char>, Seq<char>>,
)
    requires
        first_at(front + open_mark(), open_mark(), 0) == Some(front.len() as int),
        first_at(key + close_mark(), close_mark(), 0) == Some(key.len() as int),
    ensures
        substituted(front + open_mark() + key + close_mark() + back, vars) == front + replacement(
            key,
            vars,
        ) + substituted(back, vars),
{
    let t = front + open_mark() + key + close_mark() + back;
    lemma_first_at_prefix(front + open_mark(), open_mark(), key + close_mark() + back, 0);
    assert((front + open_mark()) + (key + close_mark() + back) =~= t);
    let rest = t.skip(front.len() as int + 2);
    assert(rest =~= (key + close_mark()) + back);
    lemma_first_at_prefix(key + close_mark(), close_mark(), back, 0);
    assert(t.take(front.len() as int) =~= front);
    assert(rest.take(key.len() as int) =~= key);
    assert(rest.skip(key.len() as int + 2) =~= back);
}

/// What is found in a text is found in any text that it begins.
proof fn lemma_first_at_prefix(s: Seq<char>, pat: Seq<char>, more: Seq<char>, from: int)
    requires
        0 <= from,
        first_at(s, pat, from) is Some,
    ensures
        first_at(s + more, pat, from) == first_at(s, pat, from),
    decreases s.len() + 1 - from,
{
    assert((s + more).subrange(from, from + pat.len()) =~= s.subrange(from, from + pat.len()));
    if !occurs_at(s, pat, from) {
        lemma_first_at_prefix(s, pat, more, from + 1);
    }
}

// ── Which command an event runs ─────────────────────────────────────────────
/// The template that is configured for a hook.
pub open spec fn hook_template(hooks: Option<HooksConfig>, hook_name: Seq<char>) -> Option<
    Seq<char>,
> {
    match hooks {
        None => None,
        Some(h) => {
            let field = if hook_name == "on_file_complete"@ {
                h.on_file_complete
            } else if hook_name == "on_file_failed"@ {
                h.on_file_failed
            } else if hook_name == "on_batch_done"@ {
                h.on_batch_done
            } else if hook_name == "on_pause"@ {
                h.on_pause
            } else {
                None
            };
            match field {
                Some(t) => Some(t@),
                None => None,
            }
        },
    }
}

/// The command that a hook runs, with the values put in; `None` where the hook has
/// no command or is not a recognised one.
pub open spec fn hook_command(
    hooks: Option<HooksConfig>,
    hook_name: Seq<char>,
    vars: Map<Seq<char>, Seq<char>>,
) -> Option<Seq<char>> {
    match hook_template(hooks, hook_name) {
        Some(t) => Some(substituted(t, vars)),
        None => None,
    }
}

/// The command to fire for a hook: its template with the values put in.
///
/// There is none where `hooks` is `None`, where the named hook has no command
/// configured, or where `hook_name` is not a recognised hook.
pub fn fire_hook_if_configured(
    hooks: &Option<HooksConfig>,
    hook_name: &str,
    vars: &StringHashMap<String>,
) -> (r: Option<String>)
    ensures
        match r {
            Some(command) => hook_command(*hooks, hook_name@, values_of(vars)) == Some(command@),
            None => hook_command(*hooks, hook_name@, values_of(vars)) is None,
        },
{
    let h = match hooks {
        Some(h) => h,
        None => return None,
    };
    let template = if same_text(hook_name, "on_file_complete") {
        &h.on_file_complete
    } else if same_text(hook_name, "on_file_failed") {
        &h.on_file_failed
    } else if same_text(hook_name, "on_batch_done") {
        &h.on_batch_done
    } else if same_text(hook_name, "on_pause") {
        &h.on_pause
    } else {
        &None
    };
    match template {
        Some(t) => Some(substitute_template(t.as_str(), vars)),
        None => None,
    }
}

// ── What came of a command ──────────────────────────────────────────────────
/// What came of the command of a hook.
#[derive(Debug, PartialEq, Eq)]
pub enum HookOutcome {
    /// It succeeded.
    Succeeded,
    /// It exited with this code, if it exited by itself, and had this to say.
    Failed { code: Option<i32>, stderr: String },
    /// It could not be started, for this reason.
    NotStarted(String),
}

/// What is reported of the command of a hook: nothing where it succeeded. A failure
/// is reported, and stops nothing.
pub open spec fn hook_report(hook_name: Seq<char>, result: HookOutcome) -> Option<Seq<char>> {
    match result {
        HookOutcome::Succeeded => None,
        HookOutcome::Failed { code, stderr } => Some(
            "HOOK ERR  "@ + hook_name + "  exit "@ + signed_decimal(
                match code {
                    Some(n) => n as int,
                    None => -1,
                },
            ) + "  — "@ + trimmed(stderr@),
        ),
        HookOutcome::NotStarted(cause) => Some(
            "HOOK ERR  "@ + hook_name + "  spawn failed: "@ + cause@,
        ),
    }
}

/// What is reported of the command of a hook, given what came of it.
pub fn fire_hook(hook_name: &str, result: HookOutcome) -> (r: Option<String>)
    ensures
        match r {
            Some(text) => hook_report(hook_name@, result) == Some(text@),
            None => hook_report(hook_name@, result) is None,
        },
{
    match result {
        HookOutcome::Succeeded => None,
        HookOutcome::Failed { code, stderr } => {
            let mut s = String::from_str("HOOK ERR  ");
            s.append(hook_name);
            s.append("  exit ");
            let n: i32 = match code {
                Some(n) => n,
                None => -1,
            };
            let number = signed_text(n);
            s.append(number.as_str());
            s.append("  — ");
            s.append(trim(stderr.as_str()));
            Some(s)
        },
        HookOutcome::NotStarted(cause) => {
            let mut s = String::from_str("HOOK ERR  ");
            s.append(hook_name);
            s.append("  spawn failed: ");
            s.append(cause.as_str());
            Some(s)
        },
    }
}

/// A placeholder with a value becomes a text that the shell reads as that value, as one
/// word; one without a value stays as it stands in the template.
pub proof fn law_placeholder_becomes_its_value(
    key: Seq<char>,
    vars: Map<Seq<char>, Seq<char>>,
)
    ensures
        vars.contains_key(key) ==> shell_word(replacement(key, vars), false) == Some(vars[key]),
        !vars.contains_key(key) ==> replacement(key, vars) == "{{"@ + key + "}}"@,
        open_mark() == "{{"@,
        close_mark() == "}}"@,
{
    reveal_strlit("{{");
    reveal_strlit("}}");
    assert(open_mark() =~= "{{"@);
    assert(close_mark() =~= "}}"@);
    if vars.contains_key(key) {
        law_quoted_value_is_one_word(vars[key]);
    }
}

/// A template in which no `}}` stands is left unchanged.
pub proof fn law_unclosed_template_is_unchanged(t: Seq<char>, vars: Map<Seq<char>, Seq<char>>)
    requires
        !occurs(t, close_mark()),
    ensures
        substituted(t, vars) == t,
    decreases t.len(),
{
    lemma_first_at(t, open_mark(), 0);
    if let Some(open) = first_at(t, open_mark(), 0) {
        let rest = t.skip(open + 2);
        assert(!occurs(rest, close_mark())) by {
            if occurs(rest, close_mark()) {
                let i = choose|i: int| occurs_at(rest, close_mark(), i);
                assert(t.subrange(open + 2 + i, open + 2 + i + 2) =~= rest.subrange(i, i + 2));
                assert(occurs_at(t, close_mark(), open + 2 + i));
            }
        }
        lemma_first_at(rest, close_mark(), 0);
        law_unclosed_template_is_unchanged(rest, vars);
        assert(t =~= t.take(open) + t.subrange(open, open + 2) + rest);
    }
}

/// Each hook has a template of its own, a name that is no hook has none, and without a
/// configuration no hook has any.
pub proof fn law_each_hook_has_its_own_template(hooks: Option<HooksConfig>, name: Seq<char>)
    ensures
        hooks is None ==> hook_template(hooks, name) is None,
        hooks matches Some(h) ==> {
            &&& hook_template(hooks, "on_file_complete"@) == optional(h.on_file_complete)
            &&& hook_template(hooks, "on_file_failed"@) == optional(h.on_file_failed)
            &&& hook_template(hooks, "on_batch_done"@) == optional(h.on_batch_done)
            &&& hook_template(hooks, "on_pause"@) == optional(h.on_pause)
        },
        hook_template(hooks, name) is Some ==> name == "on_file_complete"@ || name
            == "on_file_failed"@ || name == "on_batch_done"@ || name == "on_pause"@,
{
    reveal_strlit("on_file_complete");
    reveal_strlit("on_file_failed");
    reveal_strlit("on_batch_done");
    reveal_strlit("on_pause");
    assert("on_file_complete"@.len() == 16 && "on_file_failed"@.len() == 14
        && "on_batch_done"@.len() == 13 && "on_pause"@.len() == 8);
}

/// A hook runs its own template with the values put in, and nothing where it has none.
pub proof fn law_hook_runs_its_template(
    hooks: Option<HooksConfig>,
    name: Seq<char>,
    vars: Map<Seq<char>, Seq<char>>,
)
    ensures
        match (hook_template(hooks, name), hook_command(hooks, name, vars)) {
            (Some(t), Some(command)) => (!occurs(t, open_mark()) ==> command == t) && command
                == substituted(t, vars),
            (None, None) => true,
            _ => false,
        },
{
    if let Some(t) = hook_template(hooks, name) {
        if !occurs(t, open_mark()) {
            law_plain_template_is_unchanged(t, vars);
        }
    }
}

/// Nothing is reported of a hook that succeeded. Of one that failed, its name is, and
/// its exit code with what it had to say, or why it could not be started.
pub proof fn law_failed_hook_is_reported(name: Seq<char>, result: HookOutcome)
    ensures
        hook_report(name, result) is None <==> result is Succeeded,
        hook_report(name, result) matches Some(text) ==> occurs(text, "HOOK ERR  "@ + name + "  "@),
        result matches HookOutcome::Failed { code, stderr } ==> (hook_report(name, result) matches
            Some(text) && occurs(
            text,
            "exit "@ + signed_decimal(
                match code {
                    Some(n) => n as int,
                    None => -1,
                },
            ) + "  — "@ + trimmed(stderr@),
        )),
        result matches HookOutcome::NotStarted(cause) ==> (hook_report(name, result) matches Some(
            text,
        ) && occurs(text, cause@)),
{
    reveal_strlit("  exit ");
    reveal_strlit("exit ");
    reveal_strlit("  ");
    reveal_strlit("  spawn failed: ");
    let head = "HOOK ERR  "@ + name;
    let none = Seq::<char>::empty();
    match result {
        HookOutcome::Succeeded => {},
        HookOutcome::Failed { code, stderr } => {
            let text = hook_report(name, result).unwrap();
            let n = signed_decimal(
                match code {
                    Some(n) => n as int,
                    None => -1,
                },
            );
            let tail = "exit "@ + n + "  — "@ + trimmed(stderr@);
            assert("  exit "@ =~= "  "@ + "exit "@);
            assert(text =~= none + (head + "  "@) + tail);
            lemma_middle_occurs(none, head + "  "@, tail);
            assert(text =~= (head + "  "@) + tail + none);
            lemma_middle_occurs(head + "  "@, tail, none);
        },
        HookOutcome::NotStarted(cause) => {
            let text = hook_report(name, result).unwrap();
            let rest = "  spawn failed: "@.skip(2) + cause@;
            assert("  spawn failed: "@ =~= "  "@ + "  spawn failed: "@.skip(2));
            assert(text =~= none + (head + "  "@) + rest);
            lemma_middle_occurs(none, head + "  "@, rest);
            assert(text =~= (head + "  spawn failed: "@) + cause@ + none);
            lemma_middle_occurs(head + "  spawn failed: "@, cause@, none);
        },
    }
}

} // verus!

//! The privileged batch: the one place Spiral Clean asks for administrator
//! rights, and the only code that builds a string a root shell will execute.
//!
//! What this module guards is that the exact command a user consented to is
//! the exact command root runs. The guard is an allowlist of characters, not
//! an escaper: nothing that reaches the script can mean anything to a shell
//! or to AppleScript.

use crate::text::{
    ascii_alnum, chars_of, contains, contains_char, decimal, decimal_chars, find, first_occurrence,
    has, has_char, is_ascii_alnum, is_digit, occurs_at, parse_i32_chars, parse_signed,
    parse_unsigned, parse_unsigned_chars, push_str, signed_decimal, signed_decimal_string, slice,
    split_on, split_where, starts_with, string_of, trim, trimmed, trimmed_str, without_prefix,
};
use vstd::prelude::*;

verus! {

/// Emitted after every step so results can be attributed. Alphanumeric, so it
/// survives the same charset the tokens are held to.
pub const MARKER: &'static str = "SPIRALSTEP";

/// A single privileged action's work: one or more commands, run in order,
/// stopping at the first failure. `id` is the action it belongs to.
#[derive(Debug, Clone, PartialEq, Eq)]
pub struct PrivilegedStep {
    pub id: String,
    pub commands: Vec<Vec<String>>,
}

#[derive(Debug, Clone, PartialEq, Eq)]
pub enum Outcome {
    Succeeded,
    /// The command ran and reported a non-zero status.
    Failed(String),
    /// The batch never ran, so this step's state is unchanged.
    NotRun,
}

#[derive(Debug, Clone, PartialEq, Eq)]
pub struct StepResult {
    pub id: String,
    pub outcome: Outcome,
}

/// What happened to the batch as a whole.
#[derive(Debug)]
pub enum BatchResult {
    Ran(Vec<StepResult>),
    /// The user dismissed the password prompt. Not an error — a decision.
    Cancelled,
    Failed(String),
}

/// A step as the specifications see it: its id and its commands' tokens.
pub struct StepView {
    pub id: Seq<char>,
    pub commands: Seq<Seq<Seq<char>>>,
}

pub open spec fn step_view(s: PrivilegedStep) -> StepView {
    StepView { id: s.id@, commands: s.commands.deep_view() }
}

pub open spec fn steps_view(steps: Seq<PrivilegedStep>) -> Seq<StepView> {
    steps.map_values(|s: PrivilegedStep| step_view(s))
}

// ---------------------------------------------------------------------------
// The guard
// ---------------------------------------------------------------------------

pub open spec fn token_char_allowed(c: char) -> bool {
    is_ascii_alnum(c) || c == '.' || c == '-' || c == '_' || c == '/' || c == ':' || c == '+' || c
        == '='
}

/// A token is admitted when it is non-empty, at most 512 long, and made only
/// of ASCII letters, digits and `. - _ / : + =`.
pub open spec fn safe_token(t: Seq<char>) -> bool {
    0 < t.len() <= 512 && forall|i: int| 0 <= i < t.len() ==> token_char_allowed(#[trigger] t[i])
}

fn allowed_char(c: char) -> (b: bool)
    ensures
        b == token_char_allowed(c),
{
    ascii_alnum(c) || c == '.' || c == '-' || c == '_' || c == '/' || c == ':' || c == '+' || c
        == '='
}

/// Whether a token may appear in a privileged command.
///
/// This allowlist is the whole security model of this module: everything
/// downstream is safe because nothing reaching it can contain a character
/// that means anything to a shell or to AppleScript. `"`, `\`, `'`, backtick,
/// `$`, `;`, `&`, `|`, `<`, `>`, parentheses, whitespace and every non-ASCII
/// character are refused. The byte limit of 512 coincides with a limit of
/// 512 characters, since every admitted character is one byte.
pub fn token_is_safe(token: &str) -> (r: bool)
    ensures
        r == safe_token(token@),
{
    let v = chars_of(token);
    if v.len() == 0 || v.len() > 512 {
        return false;
    }
    let mut i: usize = 0;
    while i < v.len()
        invariant
            i <= v.len(),
            v@ == token@,
            forall|j: int| 0 <= j < i ==> token_char_allowed(#[trigger] v@[j]),
        decreases v.len() - i,
    {
        if !allowed_char(v[i]) {
            return false;
        }
        i += 1;
    }
    true
}

// ---------------------------------------------------------------------------
// Building the script
// ---------------------------------------------------------------------------

pub open spec fn quoted(t: Seq<char>) -> Seq<char> {
    seq!['\''] + t + seq!['\'']
}

/// One command: every token single-quoted, separated by spaces.
pub open spec fn command_text(cmd: Seq<Seq<char>>) -> Seq<char>
    decreases cmd.len(),
{
    if cmd.len() == 0 {
        Seq::empty()
    } else if cmd.len() == 1 {
        quoted(cmd[0])
    } else {
        command_text(cmd.drop_last()) + seq![' '] + quoted(cmd.last())
    }
}

pub open spec fn and_then_text() -> Seq<char> {
    seq![' ', '&', '&', ' ']
}

/// One step: its commands chained with ` && `, so a step that fails halfway
/// reports failure rather than the status of a later command.
pub open spec fn step_text(cmds: Seq<Seq<Seq<char>>>) -> Seq<char>
    decreases cmds.len(),
{
    if cmds.len() == 0 {
        Seq::empty()
    } else if cmds.len() == 1 {
        command_text(cmds[0])
    } else {
        step_text(cmds.drop_last()) + and_then_text() + command_text(cmds.last())
    }
}

/// `; echo SPIRALSTEP:<index>:$?; ` — steps are separated by `;`, so one
/// failing step does not abort the rest.
pub open spec fn marker_text(index: nat) -> Seq<char> {
    seq![';', ' ', 'e', 'c', 'h', 'o', ' '] + MARKER@ + seq![':'] + decimal(index) + seq![
        ':',
        '$',
        '?',
        ';',
        ' ',
    ]
}

pub open spec fn body_text(steps: Seq<StepView>) -> Seq<char>
    decreases steps.len(),
{
    if steps.len() == 0 {
        Seq::empty()
    } else {
        body_text(steps.drop_last()) + step_text(steps.last().commands) + marker_text(
            (steps.len() - 1) as nat,
        )
    }
}

pub open spec fn command_ok(cmd: Seq<Seq<char>>) -> bool {
    cmd.len() > 0 && forall|k: int| 0 <= k < cmd.len() ==> safe_token(#[trigger] cmd[k])
}

pub open spec fn step_ok(step: StepView) -> bool {
    forall|j: int| 0 <= j < step.commands.len() ==> command_ok(#[trigger] step.commands[j])
}

pub open spec fn steps_ok(steps: Seq<StepView>) -> bool {
    forall|i: int| 0 <= i < steps.len() ==> step_ok(#[trigger] steps[i])
}

/// The first index at which `ok` fails, or the length when it never does.
pub open spec fn first_failing_command(cmds: Seq<Seq<Seq<char>>>) -> int {
    if exists|j: int| 0 <= j < cmds.len() && !command_ok(#[trigger] cmds[j]) {
        choose|j: int|
            0 <= j < cmds.len() && !command_ok(cmds[j]) && forall|k: int|
                0 <= k < j ==> command_ok(#[trigger] cmds[k])
    } else {
        cmds.len() as int
    }
}

pub open spec fn first_failing_step(steps: Seq<StepView>) -> int {
    if exists|i: int| 0 <= i < steps.len() && !step_ok(#[trigger] steps[i]) {
        choose|i: int|
            0 <= i < steps.len() && !step_ok(steps[i]) && forall|k: int|
                0 <= k < i ==> step_ok(#[trigger] steps[k])
    } else {
        steps.len() as int
    }
}

pub open spec fn empty_command_message(id: Seq<char>) -> Seq<char> {
    id + " has an empty command and was not run."@
}

pub open spec fn unsafe_token_message(id: Seq<char>) -> Seq<char> {
    id
        + " contains something Spiral Clean will not hand to an administrator shell, so nothing was run."@
}

/// Why a step that is not admissible is refused: its first bad command is
/// either empty or carries a token the guard refuses.
pub open spec fn step_refusal(step: StepView) -> Seq<char> {
    if step.commands[first_failing_command(step.commands)].len() == 0 {
        empty_command_message(step.id)
    } else {
        unsafe_token_message(step.id)
    }
}

/// The shell body of the batch, or the refusal of the first step that cannot
/// be handed to an administrator shell.
pub open spec fn shell_body_of(steps: Seq<StepView>) -> Result<Seq<char>, Seq<char>> {
    if steps_ok(steps) {
        Ok(body_text(steps))
    } else {
        Err(step_refusal(steps[first_failing_step(steps)]))
    }
}

pub open spec fn script_prefix() -> Seq<char> {
    "do shell script \""@
}

pub open spec fn script_suffix() -> Seq<char> {
    "\" with administrator privileges"@
}

pub open spec fn unprovable_message() -> Seq<char> {
    "Spiral Clean built an administrator command it could not prove safe, so nothing was run."@
}

/// The complete AppleScript: the body inside `do shell script "…" with
/// administrator privileges`.
pub open spec fn script_of(steps: Seq<StepView>) -> Result<Seq<char>, Seq<char>> {
    match shell_body_of(steps) {
        Ok(body) => if contains_char(body, '"') || contains_char(body, '\\') {
            Err(unprovable_message())
        } else {
            Ok(script_prefix() + body + script_suffix())
        },
        Err(why) => Err(why),
    }
}

/// Wrap a validated token in single quotes.
fn quote(token: &str, into: &mut Vec<char>)
    ensures
        final(into)@ == old(into)@ + quoted(token@),
{
    into.push('\'');
    push_str(into, token);
    into.push('\'');
    assert(final(into)@ =~= old(into)@ + quoted(token@));
}

proof fn lemma_step_ok_prefix(cmds: Seq<Seq<Seq<char>>>, j: int)
    requires
        0 <= j <= cmds.len(),
        forall|k: int| 0 <= k < j ==> command_ok(#[trigger] cmds[k]),
    ensures
        step_ok(StepView { id: Seq::empty(), commands: cmds.subrange(0, j) }),
{
}

/// Append one command's text, or report which way it is inadmissible.
fn command_into(command: &Vec<String>, into: &mut Vec<char>) -> (r: Result<(), bool>)
    ensures
        r is Ok <==> command_ok(command.deep_view()),
        r is Ok ==> final(into)@ == old(into)@ + command_text(command.deep_view()),
        r matches Err(empty) ==> empty == (command.len() == 0),
{
    let ghost cmd = command.deep_view();
    if command.len() == 0 {
        return Err(true);
    }
    let mut k: usize = 0;
    while k < command.len()
        invariant
            cmd == command.deep_view(),
            cmd.len() == command.len(),
            k <= command.len(),
            forall|m: int| 0 <= m < k ==> safe_token(#[trigger] cmd[m]),
        decreases command.len() - k,
    {
        assert(cmd[k as int] == command@[k as int]@);
        if !token_is_safe(command[k].as_str()) {
            return Err(false);
        }
        k += 1;
    }
    let mut t: usize = 0;
    while t < command.len()
        invariant
            cmd == command.deep_view(),
            cmd.len() == command.len() > 0,
            t <= command.len(),
            t > 0 ==> into@ == old(into)@ + command_text(cmd.subrange(0, t as int)),
            t == 0 ==> into@ == old(into)@,
        decreases command.len() - t,
    {
        assert(cmd[t as int] == command@[t as int]@);
        if t > 0 {
            into.push(' ');
        }
        quote(command[t].as_str(), into);
        proof {
            let pre = cmd.subrange(0, t + 1);
            assert(pre.drop_last() =~= cmd.subrange(0, t as int));
            assert(pre.last() == cmd[t as int]);
            if t == 0 {
                assert(command_text(pre) == quoted(cmd[0]));
            }
        }
        t += 1;
        proof {
            if t > 1 {
                assert(into@ =~= old(into)@ + command_text(cmd.subrange(0, t as int)));
            } else {
                assert(into@ =~= old(into)@ + command_text(cmd.subrange(0, t as int)));
            }
        }
    }
    assert(cmd.subrange(0, cmd.len() as int) =~= cmd);
    Ok(())
}

fn marker_into(index: usize, into: &mut Vec<char>)
    ensures
        final(into)@ == old(into)@ + marker_text(index as nat),
{
    push_str(into, "; echo ");
    push_str(into, MARKER);
    into.push(':');
    let mut d = decimal_chars(index as u64);
    into.append(&mut d);
    push_str(into, ":$?; ");
    proof {
        reveal_strlit("; echo ");
        reveal_strlit(":$?; ");
        assert(final(into)@ =~= old(into)@ + marker_text(index as nat));
    }
}

fn step_problem(id: &String, empty: bool) -> (r: String)
    ensures
        empty ==> r@ == empty_command_message(id@),
        !empty ==> r@ == unsafe_token_message(id@),
{
    let mut v = chars_of(id.as_str());
    if empty {
        push_str(&mut v, " has an empty command and was not run.");
    } else {
        push_str(
            &mut v,
            " contains something Spiral Clean will not hand to an administrator shell, so nothing was run.",
        );
    }
    string_of(&v)
}

/// Assemble the shell body: each step's commands joined by `&&`, each step
/// followed by a marker carrying its index and exit status.
pub fn shell_body(steps: &[PrivilegedStep]) -> (r: Result<String, String>)
    ensures
        match r {
            Ok(b) => shell_body_of(steps_view(steps@)) == Ok::<Seq<char>, Seq<char>>(b@),
            Err(e) => shell_body_of(steps_view(steps@)) == Err::<Seq<char>, Seq<char>>(e@),
        },
{
    let ghost sv = steps_view(steps@);
    let mut body: Vec<char> = Vec::new();
    let mut i: usize = 0;
    while i < steps.len()
        invariant
            sv == steps_view(steps@),
            sv.len() == steps.len(),
            i <= steps.len(),
            forall|k: int| 0 <= k < i ==> step_ok(#[trigger] sv[k]),
            body@ == body_text(sv.subrange(0, i as int)),
        decreases steps.len() - i,
    {
        let step = &steps[i];
        assert(sv[i as int] == step_view(*step));
        let ghost cmds = step.commands.deep_view();
        let ghost before = body@;
        let mut j: usize = 0;
        while j < step.commands.len()
            invariant
                sv == steps_view(steps@),
                sv.len() == steps.len(),
                i < steps.len(),
                step == &steps@[i as int],
                sv[i as int] == step_view(*step),
                forall|k: int| 0 <= k < i ==> step_ok(#[trigger] sv[k]),
                cmds == step.commands.deep_view(),
                cmds.len() == step.commands.len(),
                j <= step.commands.len(),
                forall|k: int| 0 <= k < j ==> command_ok(#[trigger] cmds[k]),
                body@ == before + step_text(cmds.subrange(0, j as int)),
            decreases step.commands.len() - j,
        {
            assert(cmds[j as int] == step.commands@[j as int].deep_view());
            let ghost mid = body@;
            if j > 0 {
                push_str(&mut body, " && ");
                proof {
                    reveal_strlit(" && ");
                    assert(" && "@ =~= and_then_text());
                }
            }
            let ghost mid2 = body@;
            match command_into(&step.commands[j], &mut body) {
                Ok(()) => {},
                Err(empty) => {
                    proof {
                        let fc = first_failing_command(cmds);
                        assert(!command_ok(cmds[j as int]));
                        assert(fc == j) by {
                            let c = choose|c: int|
                                0 <= c < cmds.len() && !command_ok(cmds[c]) && forall|k: int|
                                    0 <= k < c ==> command_ok(#[trigger] cmds[k]);
                            if c < j {
                            } else if c > j {
                            }
                        }
                        assert(sv[i as int].commands == cmds);
                        assert(!command_ok(sv[i as int].commands[j as int]));
                        assert(!step_ok(sv[i as int]));
                        let fs = first_failing_step(sv);
                        assert(fs == i) by {
                            let c = choose|c: int|
                                0 <= c < sv.len() && !step_ok(sv[c]) && forall|k: int|
                                    0 <= k < c ==> step_ok(#[trigger] sv[k]);
                            if c < i {
                            } else if c > i {
                            }
                        }
                        assert(!steps_ok(sv));
                    }
                    return Err(step_problem(&step.id, empty));
                },
            }
            proof {
                let pre = cmds.subrange(0, j + 1);
                assert(pre.drop_last() =~= cmds.subrange(0, j as int));
                assert(pre.last() == cmds[j as int]);
                if j == 0 {
                    assert(body@ =~= before + step_text(pre));
                } else {
                    assert(body@ =~= before + step_text(pre));
                }
            }
            j += 1;
        }
        assert(cmds.subrange(0, cmds.len() as int) =~= cmds);
        marker_into(i, &mut body);
        proof {
            let pre = sv.subrange(0, i + 1);
            assert(pre.drop_last() =~= sv.subrange(0, i as int));
            assert(pre.last() == sv[i as int]);
            assert(body@ =~= body_text(pre));
        }
        i += 1;
    }
    assert(sv.subrange(0, sv.len() as int) =~= sv);
    Ok(string_of(&body))
}

/// The complete AppleScript, ready for `osascript -e`.
///
/// The final check is the second half of the guard: it proves no `"` or `\`
/// reached the finished script by any route. `lemma_safe_body_has_no_escapes`
/// shows it can never fire while the guard holds; it stays because it is the
/// check that would catch an edit to this module that broke that.
pub fn build_script(steps: &[PrivilegedStep]) -> (r: Result<String, String>)
    ensures
        match r {
            Ok(s) => script_of(steps_view(steps@)) == Ok::<Seq<char>, Seq<char>>(s@),
            Err(e) => script_of(steps_view(steps@)) == Err::<Seq<char>, Seq<char>>(e@),
        },
{
    let body = match shell_body(steps) {
        Ok(body) => body,
        Err(e) => return Err(e),
    };
    let b = chars_of(body.as_str());
    if has_char(&b, '"') || has_char(&b, '\\') {
        return Err(
            "Spiral Clean built an administrator command it could not prove safe, so nothing was run."
                .to_owned(),
        );
    }
    let mut v = chars_of("do shell script \"");
    v.append(&mut chars_of(body.as_str()));
    push_str(&mut v, "\" with administrator privileges");
    Ok(string_of(&v))
}

// ---------------------------------------------------------------------------
// Laws of the builder
// ---------------------------------------------------------------------------

pub open spec fn script_char(c: char) -> bool {
    token_char_allowed(c) || c == '\'' || c == ' ' || c == '&' || c == ';' || c == '$' || c == '?'
}

pub open spec fn all_script_chars(s: Seq<char>) -> bool {
    forall|i: int| 0 <= i < s.len() ==> script_char(#[trigger] s[i])
}

proof fn lemma_concat_script_chars(a: Seq<char>, b: Seq<char>)
    requires
        all_script_chars(a),
        all_script_chars(b),
    ensures
        all_script_chars(a + b),
{
    assert forall|i: int| 0 <= i < (a + b).len() implies script_char(#[trigger] (a + b)[i]) by {
        if i < a.len() {
            assert((a + b)[i] == a[i]);
        } else {
            assert((a + b)[i] == b[i - a.len()]);
        }
    }
}

proof fn lemma_decimal_digits(n: nat)
    ensures
        forall|i: int| 0 <= i < decimal(n).len() ==> is_digit(#[trigger] decimal(n)[i]),
    decreases n,
{
    if n >= 10 {
        lemma_decimal_digits(n / 10);
        let d = decimal(n / 10);
        assert forall|i: int| 0 <= i < decimal(n).len() implies is_digit(#[trigger] decimal(n)[i]) by {
            if i < d.len() {
                assert(decimal(n)[i] == d[i]);
            }
        }
    }
}

proof fn lemma_command_chars(cmd: Seq<Seq<char>>)
    requires
        forall|k: int| 0 <= k < cmd.len() ==> safe_token(#[trigger] cmd[k]),
    ensures
        all_script_chars(command_text(cmd)),
    decreases cmd.len(),
{
    if cmd.len() > 0 {
        let q = quoted(cmd.last());
        assert(safe_token(cmd[cmd.len() - 1]));
        assert(all_script_chars(q)) by {
            assert forall|i: int| 0 <= i < q.len() implies script_char(#[trigger] q[i]) by {
                if 0 < i < q.len() - 1 {
                    assert(q[i] == cmd.last()[i - 1]);
                }
            }
        }
        if cmd.len() > 1 {
            lemma_command_chars(cmd.drop_last());
            lemma_concat_script_chars(command_text(cmd.drop_last()), seq![' ']);
            lemma_concat_script_chars(command_text(cmd.drop_last()) + seq![' '], q);
        } else {
            assert(cmd.last() == cmd[0]);
        }
    }
}

proof fn lemma_step_chars(cmds: Seq<Seq<Seq<char>>>)
    requires
        forall|j: int| 0 <= j < cmds.len() ==> command_ok(#[trigger] cmds[j]),
    ensures
        all_script_chars(step_text(cmds)),
    decreases cmds.len(),
{
    if cmds.len() > 0 {
        assert(command_ok(cmds[cmds.len() - 1]));
        lemma_command_chars(cmds.last());
        if cmds.len() > 1 {
            lemma_step_chars(cmds.drop_last());
            lemma_concat_script_chars(step_text(cmds.drop_last()), and_then_text());
            lemma_concat_script_chars(step_text(cmds.drop_last()) + and_then_text(), command_text(cmds.last()));
        } else {
            assert(cmds.last() == cmds[0]);
            assert(command_ok(cmds[0]));
            lemma_command_chars(cmds[0]);
        }
    }
}

proof fn lemma_marker_chars(index: nat)
    ensures
        all_script_chars(marker_text(index)),
{
    reveal_strlit("SPIRALSTEP");
    lemma_decimal_digits(index);
    let m = marker_text(index);
    let head = seq![';', ' ', 'e', 'c', 'h', 'o', ' '] + MARKER@ + seq![':'];
    assert(all_script_chars(head)) by {
        assert forall|i: int| 0 <= i < head.len() implies script_char(#[trigger] head[i]) by {}
    }
    let tail = seq![':', '$', '?', ';', ' '];
    assert(all_script_chars(tail));
    assert(all_script_chars(decimal(index)));
    lemma_concat_script_chars(head, decimal(index));
    lemma_concat_script_chars(head + decimal(index), tail);
}

proof fn lemma_body_chars(steps: Seq<StepView>)
    requires
        steps_ok(steps),
    ensures
        all_script_chars(body_text(steps)),
    decreases steps.len(),
{
    if steps.len() > 0 {
        let init = steps.drop_last();
        assert(steps_ok(init)) by {
            assert forall|i: int| 0 <= i < init.len() implies step_ok(#[trigger] init[i]) by {
                assert(init[i] == steps[i]);
            }
        }
        lemma_body_chars(init);
        assert(step_ok(steps[steps.len() - 1]));
        lemma_step_chars(steps.last().commands);
        lemma_marker_chars((steps.len() - 1) as nat);
        lemma_concat_script_chars(body_text(init), step_text(steps.last().commands));
        lemma_concat_script_chars(
            body_text(init) + step_text(steps.last().commands),
            marker_text((steps.len() - 1) as nat),
        );
    }
}

/// While every token passes the guard, the shell body can carry neither `"`
/// nor `\`, so the batch is never refused by the final check: the script is
/// built exactly when every step is admissible.
pub proof fn lemma_safe_body_has_no_escapes(steps: Seq<StepView>)
    requires
        steps_ok(steps),
    ensures
        !contains_char(body_text(steps), '"'),
        !contains_char(body_text(steps), '\\'),
        script_of(steps) == Ok::<Seq<char>, Seq<char>>(script_prefix() + body_text(steps) + script_suffix()),
{
    lemma_body_chars(steps);
}

/// A batch holding even one refused token is never turned into a script.
pub proof fn lemma_one_bad_token_refuses_the_batch(steps: Seq<StepView>, i: int, j: int, k: int)
    requires
        0 <= i < steps.len(),
        0 <= j < steps[i].commands.len(),
        0 <= k < steps[i].commands[j].len(),
        !safe_token(steps[i].commands[j][k]),
    ensures
        script_of(steps) is Err,
{
    assert(!command_ok(steps[i].commands[j]));
    assert(!step_ok(steps[i]));
}

// ---------------------------------------------------------------------------
// Attribution
// ---------------------------------------------------------------------------

/// The `(index, status)` a marker line carries, read the way `attribute`
/// reads it: trimmed, `SPIRALSTEP:` stripped, split at the first `:`, the
/// index as a `usize` and the trimmed status as an `i32`.
pub open spec fn marker_of(line: Seq<char>) -> Option<(nat, int)> {
    let t = trim(line);
    let head = MARKER@.push(':');
    if starts_with(t, head) {
        let rest = t.subrange(head.len() as int, t.len() as int);
        match first_occurrence(rest, seq![':']) {
            Some(c) => match (
                parse_unsigned(rest.subrange(0, c), usize::MAX as nat),
                parse_signed(trim(rest.subrange(c + 1, rest.len() as int)), i32::MAX as nat),
            ) {
                (Some(index), Some(status)) => Some((index, status)),
                _ => None,
            },
            None => None,
        }
    } else {
        None
    }
}

/// Every marker in `stdout`, in order. `do shell script` returns
/// carriage-return-delimited output, so both `\r` and `\n` end a line.
pub open spec fn markers_in(lines: Seq<Seq<char>>) -> Seq<(nat, int)>
    decreases lines.len(),
{
    if lines.len() == 0 {
        Seq::empty()
    } else {
        match marker_of(lines.last()) {
            Some(m) => markers_in(lines.drop_last()).push(m),
            None => markers_in(lines.drop_last()),
        }
    }
}

pub open spec fn stdout_markers(stdout: Seq<char>) -> Seq<(nat, int)> {
    markers_in(split_on(stdout, |c: char| c == '\n' || c == '\r'))
}

/// The status the first marker for step `index` reports, if any.
pub open spec fn status_for(markers: Seq<(nat, int)>, index: nat) -> Option<int> {
    if exists|j: int| 0 <= j < markers.len() && (#[trigger] markers[j]).0 == index {
        let j = choose|j: int|
            0 <= j < markers.len() && markers[j].0 == index && forall|k: int|
                0 <= k < j ==> (#[trigger] markers[k]).0 != index;
        Some(markers[j].1)
    } else {
        None
    }
}

pub open spec fn error_status_message(status: int) -> Seq<char> {
    "macOS reported error "@ + signed_decimal(status) + "."@
}

pub open spec fn outcome_view(o: Outcome) -> (int, Seq<char>) {
    match o {
        Outcome::Succeeded => (0, Seq::empty()),
        Outcome::Failed(why) => (1, why@),
        Outcome::NotRun => (2, Seq::empty()),
    }
}

/// What `attribute` reports for step `index` of a batch whose output is
/// `stdout`: succeeded for status 0, failed for any other status, and not
/// run when no marker names it.
pub open spec fn attributed(stdout: Seq<char>, index: nat) -> (int, Seq<char>) {
    match status_for(stdout_markers(stdout), index) {
        Some(s) => if s == 0 { (0, Seq::empty()) } else { (1, error_status_message(s)) },
        None => (2, Seq::empty()),
    }
}

fn marker_line(line: &[char]) -> (r: Option<(usize, i32)>)
    ensures
        match r {
            Some((i, s)) => marker_of(line@) == Some((i as nat, s as int)),
            None => marker_of(line@) is None,
        },
{
    let t = trimmed(line);
    let mut head = chars_of(MARKER);
    head.push(':');
    let rest = match without_prefix(&t, &head) {
        Some(rest) => rest,
        None => return None,
    };
    let mut colon = Vec::new();
    colon.push(':');
    assert(colon@ =~= seq![':']);
    let c = match find(&rest, &colon) {
        Some(c) => c,
        None => return None,
    };
    assert(colon@.len() == 1);
    assert(occurs_at(rest@, colon@, c as int));
    let n = rest.len();
    assert(c + 1 <= n);
    let index_part = slice(&rest, 0, c);
    let after: usize = c + 1;
    let tail = slice(&rest, after, n);
    let status_part = trimmed(&tail);
    let index = match parse_unsigned_chars(&index_part, usize::MAX as u64) {
        Some(n) => n as usize,
        None => return None,
    };
    match parse_i32_chars(&status_part) {
        Some(s) => Some((index, s)),
        None => None,
    }
}

fn status_lookup(markers: &Vec<(usize, i32)>, index: usize) -> (r: Option<i32>)
    ensures
        match r {
            Some(s) => status_for(markers@.map_values(|m: (usize, i32)| (m.0 as nat, m.1 as int)), index as nat)
                == Some(s as int),
            None => status_for(markers@.map_values(|m: (usize, i32)| (m.0 as nat, m.1 as int)), index as nat)
                is None,
        },
{
    let ghost mv = markers@.map_values(|m: (usize, i32)| (m.0 as nat, m.1 as int));
    let mut j: usize = 0;
    while j < markers.len()
        invariant
            mv == markers@.map_values(|m: (usize, i32)| (m.0 as nat, m.1 as int)),
            j <= markers.len(),
            forall|k: int| 0 <= k < j ==> (#[trigger] mv[k]).0 != index,
        decreases markers.len() - j,
    {
        if markers[j].0 == index {
            proof {
                assert(mv[j as int].0 == index);
                let c = choose|c: int|
                    0 <= c < mv.len() && mv[c].0 == index && forall|k: int|
                        0 <= k < c ==> (#[trigger] mv[k]).0 != index;
                assert(c == j) by {
                    if c < j {
                    } else if c > j {
                    }
                }
            }
            return Some(markers[j].1);
        }
        j += 1;
    }
    None
}

fn failed_status(status: i32) -> (r: String)
    ensures
        r@ == error_status_message(status as int),
{
    let mut v = chars_of("macOS reported error ");
    let s = signed_decimal_string(status);
    push_str(&mut v, s.as_str());
    v.push('.');
    proof {
        reveal_strlit(".");
        assert(v@ =~= error_status_message(status as int));
    }
    string_of(&v)
}

/// Match each step to the marker line it produced.
///
/// A step with no marker is reported `NotRun` rather than assumed to have
/// succeeded: output can be truncated, and a silent step is the one case
/// where guessing would tell a user something was done when it was not.
pub fn attribute(steps: &[PrivilegedStep], stdout: &str) -> (r: Vec<StepResult>)
    ensures
        r.len() == steps.len(),
        forall|i: int|
            0 <= i < steps.len() ==> (#[trigger] r@[i]).id@ == steps@[i].id@ && outcome_view(
                r@[i].outcome,
            ) == attributed(stdout@, i as nat),
{
    let out = chars_of(stdout);
    let lines = split_where(&out, false);
    let ghost lv = lines@.map_values(|p: Vec<char>| p@);
    let mut markers: Vec<(usize, i32)> = Vec::new();
    let mut l: usize = 0;
    while l < lines.len()
        invariant
            lv == lines@.map_values(|p: Vec<char>| p@),
            l <= lines.len(),
            markers@.map_values(|m: (usize, i32)| (m.0 as nat, m.1 as int)) == markers_in(
                lv.subrange(0, l as int),
            ),
        decreases lines.len() - l,
    {
        let ghost before = markers@;
        assert(lines@[l as int]@ == lv[l as int]);
        let m = marker_line(&lines[l]);
        proof {
            let pre = lv.subrange(0, l + 1);
            assert(pre.drop_last() =~= lv.subrange(0, l as int));
            assert(pre.last() == lv[l as int]);
        }
        if let Some(pair) = m {
            markers.push(pair);
            proof {
                assert(markers@.map_values(|m: (usize, i32)| (m.0 as nat, m.1 as int)) =~= before.map_values(
                    |m: (usize, i32)| (m.0 as nat, m.1 as int),
                ).push((pair.0 as nat, pair.1 as int)));
            }
        }
        l += 1;
    }
    assert(lv.subrange(0, lv.len() as int) =~= lv);
    let mut results: Vec<StepResult> = Vec::new();
    let mut i: usize = 0;
    while i < steps.len()
        invariant
            i <= steps.len(),
            results.len() == i,
            markers@.map_values(|m: (usize, i32)| (m.0 as nat, m.1 as int)) == stdout_markers(stdout@),
            forall|k: int|
                0 <= k < i ==> (#[trigger] results@[k]).id@ == steps@[k].id@ && outcome_view(
                    results@[k].outcome,
                ) == attributed(stdout@, k as nat),
        decreases steps.len() - i,
    {
        let outcome = match status_lookup(&markers, i) {
            Some(0) => Outcome::Succeeded,
            Some(s) => Outcome::Failed(failed_status(s)),
            None => Outcome::NotRun,
        };
        results.push(StepResult { id: steps[i].id.clone(), outcome });
        i += 1;
    }
    results
}

/// AppleScript reports a dismissed authorisation prompt as error -128. The
/// wording is localised; the number is not, which is why the number is what
/// is matched.
pub fn user_cancelled(stderr: &str) -> (r: bool)
    ensures
        r == contains(stderr@, "-128"@),
{
    let s = chars_of(stderr);
    let n = chars_of("-128");
    has(&s, &n)
}

// ---------------------------------------------------------------------------
// Running it
// ---------------------------------------------------------------------------

/// What `osascript` handed back: whether it exited successfully, its
/// standard output and its standard error.
pub struct ScriptRun {
    pub success: bool,
    pub stdout: String,
    pub stderr: String,
}

pub open spec fn could_not_ask_message(e: Seq<char>) -> Seq<char> {
    "Could not ask for administrator access: "@ + e + ". Nothing was changed."@
}

pub open spec fn refused_message(stderr: Seq<char>) -> Seq<char> {
    "Administrator access was refused, so nothing was changed. macOS said: "@ + trim(stderr)
}

/// Run every privileged step behind one password prompt, through `invoke`,
/// which runs `osascript -e <script>` and reports what came back (or why it
/// could not be started).
///
/// An empty batch never reaches `invoke`. A script that cannot be built is
/// never handed to it. A dismissed prompt is `Cancelled`, not an error.
pub fn run<F: Fn(&str) -> Result<ScriptRun, String>>(steps: &[PrivilegedStep], invoke: &F) -> (r:
    BatchResult)
    requires
        forall|s: &str| invoke.requires((s,)),
    ensures
        steps.len() == 0 ==> (r matches BatchResult::Ran(v) && v.len() == 0),
        (steps.len() > 0 && script_of(steps_view(steps@)) is Err) ==> (r matches BatchResult::Failed(
            m,
        ) && Err::<Seq<char>, Seq<char>>(m@) == script_of(steps_view(steps@))),
        steps.len() > 0 && script_of(steps_view(steps@)) is Ok ==> exists|script: &str, out: Result<
            ScriptRun,
            String,
        >|
            {
                &&& Ok::<Seq<char>, Seq<char>>(script@) == script_of(steps_view(steps@))
                &&& invoke.ensures((script,), out)
                &&& match out {
                    Err(e) => (r matches BatchResult::Failed(m) && m@ == could_not_ask_message(e@)),
                    Ok(o) => if !o.success {
                        if contains(o.stderr@, "-128"@) {
                            r is Cancelled
                        } else {
                            (r matches BatchResult::Failed(m) && m@ == refused_message(o.stderr@))
                        }
                    } else {
                        (r matches BatchResult::Ran(v) && v.len() == steps.len() && forall|i: int|
                            0 <= i < steps.len() ==> (#[trigger] v@[i]).id@ == steps@[i].id@
                                && outcome_view(v@[i].outcome) == attributed(o.stdout@, i as nat))
                    },
                }
            },
{
    if steps.len() == 0 {
        return BatchResult::Ran(Vec::new());
    }
    let script = match build_script(steps) {
        Ok(script) => script,
        Err(message) => return BatchResult::Failed(message),
    };
    let out = invoke(script.as_str());
    match out {
        Err(e) => {
            let mut v = chars_of("Could not ask for administrator access: ");
            push_str(&mut v, e.as_str());
            push_str(&mut v, ". Nothing was changed.");
            BatchResult::Failed(string_of(&v))
        },
        Ok(o) => {
            if !o.success {
                if user_cancelled(o.stderr.as_str()) {
                    return BatchResult::Cancelled;
                }
                let mut v = chars_of(
                    "Administrator access was refused, so nothing was changed. macOS said: ",
                );
                let mut t = trimmed_str(o.stderr.as_str());
                v.append(&mut t);
                return BatchResult::Failed(string_of(&v));
            }
            BatchResult::Ran(attribute(steps, o.stdout.as_str()))
        },
    }
}

} // verus!

//! The step machine: everything the driver decides in one invocation.
//!
//! The functions here are pure decisions over plain values.  The binary
//! around the library reads the environment, spawns processes and writes
//! to the host; it feeds those inputs in and carries the answers out in
//! the order given here: restore the state, compute the side-effect
//! command, seed the stacks on first use, apply the stack edits, build
//! the script call, and turn the script's output lines into either an
//! emission or an autoselect re-entry.

use vstd::prelude::*;

use crate::data::{Data, DataView, Info, InfoView, spec_data_default, spec_info_default,
    spec_decode_data, spec_decode_info, decode_data, decode_info, spec_decode_string_vec,
    decode_string_vec};
use crate::json::{json5_parsed, json_text, parse_json5, to_json_text};
use crate::numtext::{spec_dec_nat, usize_to_decimal};
use crate::options::{ModeOptionsView, spec_decode_options, decode_options, spec_merge,
    spec_options_to_rofi};
use crate::row::{Row, RowView, spec_decode_row, decode_row, spec_row_to_rofi};
use crate::value::{VecString, VecStringView, spec_is_empty, spec_join, spec_expand};

verus! {

/// The first-launch preamble: it sets the host's record delimiter to the
/// row separator used by every later write.
pub open spec fn spec_preamble() -> Seq<char> {
    "\x00delim\x1F\x0b\n"@
}

pub fn preamble() -> (r: String)
    ensures
        r@ == spec_preamble(),
{
    "\x00delim\x1F\x0b\n".to_owned()
}

/// The text with leading and trailing whitespace removed.
pub uninterp spec fn spec_trimmed(s: Seq<char>) -> Seq<char>;

/// Relies on `str::trim`: removes leading and trailing whitespace; the
/// result is a function of the text alone.
#[verifier::external_body]
fn str_trim(s: &str) -> (r: &str)
    ensures
        r@ == spec_trimmed(s@),
{
    s.trim()
}

/// The grammar of the two seeding variables: a text that, trimmed, is
/// bracketed must be a JSON5 array of strings; any other text stands for
/// itself alone.
pub open spec fn spec_parse_var(s: Seq<char>) -> Option<Seq<Seq<char>>> {
    let t = spec_trimmed(s);
    if t.len() > 0 && t[0] == '[' && t[t.len() - 1] == ']' {
        match json5_parsed(s) {
            Some(j) => spec_decode_string_vec(j),
            None => None,
        }
    } else {
        Some(seq![s])
    }
}

pub fn parse_var(s: &str) -> (r: Option<Vec<String>>)
    ensures
        r matches Some(v) ==> spec_parse_var(s@) == Some(v.deep_view()),
        r is None ==> spec_parse_var(s@) is None,
{
    let t = str_trim(s);
    let n = t.unicode_len();
    let bracketed = if n > 0 {
        t.get_char(0) == '[' && t.get_char(n - 1) == ']'
    } else {
        false
    };
    if bracketed {
        match parse_json5(s) {
            Some(j) => decode_string_vec(&j),
            None => None,
        }
    } else {
        let v = vec![s.to_owned()];
        proof {
            assert(v.deep_view() =~= seq![s@]);
        }
        Some(v)
    }
}

/// The state restored from the `data` environment variable: a missing or
/// malformed value falls back to the fresh state.
pub open spec fn spec_restore_data(t: Option<Seq<char>>) -> DataView {
    match t {
        Some(s) => match json5_parsed(s) {
            Some(j) => match spec_decode_data(j) {
                Some(d) => d,
                None => spec_data_default(),
            },
            None => spec_data_default(),
        },
        None => spec_data_default(),
    }
}

pub fn restore_data(data_text: &Option<String>) -> (d: Data)
    ensures
        d@ == spec_restore_data(data_text.deep_view()),
{
    match data_text {
        Some(s) => match parse_json5(s.as_str()) {
            Some(j) => match decode_data(&j) {
                Some(d) => d,
                None => Data::default(),
            },
            None => Data::default(),
        },
        None => Data::default(),
    }
}

/// The transition restored from the `info` environment variable: a
/// present value must hold the exact transition schema; an absent one
/// falls back to the stored fallback transition, or to the transition
/// that changes nothing.  `None` is the fatal case: a present but
/// malformed value.
pub open spec fn spec_restore_info(t: Option<Seq<char>>, d: DataView) -> Option<InfoView> {
    match t {
        Some(s) => match json5_parsed(s) {
            Some(j) => spec_decode_info(j),
            None => None,
        },
        None => match d.fallback {
            Some(f) => Some(f),
            None => Some(spec_info_default()),
        },
    }
}

pub fn restore_info(info_text: &Option<String>, data: &Data) -> (r: Option<Info>)
    ensures
        r matches Some(i) ==> spec_restore_info(info_text.deep_view(), data@) == Some(i@),
        r is None ==> spec_restore_info(info_text.deep_view(), data@) is None,
{
    match info_text {
        Some(s) => match parse_json5(s.as_str()) {
            Some(j) => decode_info(&j),
            None => None,
        },
        None => match &data.fallback {
            Some(f) => Some(f.duplicate()),
            None => Some(Info::default()),
        },
    }
}

/// The shell invocation for a transition's side-effect command, if it has
/// one: a list resolves to a multi-argument call with the elements as
/// positional parameters; anything else resolves to one shell string.
pub open spec fn spec_exec_command(i: InfoView, input: Seq<char>) -> Option<Seq<Seq<char>>> {
    if spec_is_empty(i.exec_cmd) {
        None
    } else {
        match i.exec_cmd {
            VecStringView::Multi(_) => Some(
                seq!["sh"@, "-c"@, "\"$0\" \"$@\""@] + spec_expand(i.exec_cmd, input),
            ),
            _ => Some(seq!["sh"@, "-c"@, spec_join(i.exec_cmd, input)]),
        }
    }
}

pub fn exec_command(info: &Info, input: &str) -> (r: Option<Vec<String>>)
    ensures
        r matches Some(v) ==> spec_exec_command(info@, input@) == Some(v.deep_view()),
        r is None ==> spec_exec_command(info@, input@) is None,
{
    if info.exec_cmd.is_empty() {
        return None;
    }
    let mut argv: Vec<String> = Vec::new();
    argv.push("sh".to_owned());
    argv.push("-c".to_owned());
    match &info.exec_cmd {
        VecString::Multi(_) => {
            argv.push("\"$0\" \"$@\"".to_owned());
            let args = info.exec_cmd.flatten1(input);
            let ghost base = argv.deep_view();
            proof {
                assert(base =~= seq!["sh"@, "-c"@, "\"$0\" \"$@\""@]);
            }
            extend_strings(&mut argv, &args);
            proof {
                assert(argv.deep_view() =~= seq!["sh"@, "-c"@, "\"$0\" \"$@\""@] + spec_expand(info@.exec_cmd, input@));
            }
        },
        _ => {
            argv.push(info.exec_cmd.flatten(input));
            proof {
                assert(argv.deep_view() =~= seq!["sh"@, "-c"@, spec_join(info@.exec_cmd, input@)]);
            }
        },
    }
    Some(argv)
}

/// Appends clones of all of `src` to `dst`.
fn extend_strings(dst: &mut Vec<String>, src: &Vec<String>)
    ensures
        final(dst).deep_view() == old(dst).deep_view() + src.deep_view(),
{
    let ghost base = dst.deep_view();
    let mut i: usize = 0;
    while i < src.len()
        invariant
            i <= src.len(),
            dst.deep_view() =~= base + src.deep_view().subrange(0, i as int),
        decreases src.len() - i,
    {
        let ghost old_deep = dst.deep_view();
        dst.push(src[i].clone());
        proof {
            assert(dst.deep_view() =~= old_deep.push(src@[i as int]@));
            assert(old_deep.push(src@[i as int]@) =~= base + src.deep_view().subrange(0, i + 1int));
        }
        i = i + 1;
    }
    proof {
        assert(src.deep_view().subrange(0, src.deep_view().len() as int) =~= src.deep_view());
        assert(dst.deep_view() =~= base + src.deep_view());
    }
}

/// Why the stacks could not be seeded.
#[derive(Debug, PartialEq, Eq, Structural)]
pub enum SeedError {
    /// The call stack is empty and no initial script is given.
    MissingInitialScript,
    /// The initial script does not follow the seeding grammar.
    BadInitialScript,
    /// The initial stack does not follow the seeding grammar.
    BadInitialStack,
}

/// What seeding must leave behind: on a non-empty call stack nothing
/// changes; on an empty one the call stack becomes the parsed initial
/// script and the value stack is replaced by the parsed initial stack,
/// when one is given.
pub open spec fn spec_seeded(
    d: DataView,
    script_var: Option<Seq<char>>,
    stack_var: Option<Seq<char>>,
) -> Result<DataView, SeedError> {
    if d.call_stack.len() > 0 {
        Ok(d)
    } else {
        match script_var {
            None => Err(SeedError::MissingInitialScript),
            Some(sv) => match spec_parse_var(sv) {
                None => Err(SeedError::BadInitialScript),
                Some(cs) => match stack_var {
                    None => Ok(DataView { call_stack: cs, ..d }),
                    Some(stv) => match spec_parse_var(stv) {
                        None => Err(SeedError::BadInitialStack),
                        Some(ss) => Ok(DataView { call_stack: cs, stack: ss, ..d }),
                    },
                },
            },
        }
    }
}

pub fn seed_stacks(
    data: &mut Data,
    script_var: &Option<String>,
    stack_var: &Option<String>,
) -> (r: Result<(), SeedError>)
    ensures
        r matches Ok(()) ==> spec_seeded(old(data)@, script_var.deep_view(), stack_var.deep_view())
            == Ok::<DataView, SeedError>(final(data)@),
        r matches Err(e) ==> spec_seeded(old(data)@, script_var.deep_view(), stack_var.deep_view())
            == Err::<DataView, SeedError>(e) && final(data)@ == old(data)@,
{
    if data.call_stack.len() > 0 {
        return Ok(());
    }
    let script = match script_var {
        None => {
            return Err(SeedError::MissingInitialScript);
        },
        Some(sv) => match parse_var(sv.as_str()) {
            None => {
                return Err(SeedError::BadInitialScript);
            },
            Some(cs) => cs,
        },
    };
    match stack_var {
        None => {
            data.call_stack = script;
        },
        Some(stv) => match parse_var(stv.as_str()) {
            None => {
                return Err(SeedError::BadInitialStack);
            },
            Some(ss) => {
                data.call_stack = script;
                data.stack = ss;
            },
        },
    }
    Ok(())
}

/// One stack after a transition's edit: pop the given count (none means
/// clear), then push the expanded entries; a count beyond the stack's
/// depth is the silent stop.
pub open spec fn spec_stack_edit(
    stack: Seq<Seq<char>>,
    pop: Option<usize>,
    pushed: Seq<Seq<char>>,
) -> Option<Seq<Seq<char>>> {
    match pop {
        None => Some(pushed),
        Some(n) => if n <= stack.len() {
            Some(stack.take(stack.len() - n as int) + pushed)
        } else {
            None
        },
    }
}

/// Applies a transition's edits to both stacks.  Returns false for the
/// silent stop: a pop count deeper than its stack.  On success the new
/// value stack is the old one minus the popped entries plus the expansion
/// of the pushed value against the input, and likewise for the call
/// stack; the fallback transition is untouched.
pub fn edit_stacks(data: &mut Data, info: &Info, input: &str) -> (ok: bool)
    ensures
        (ok == (spec_stack_edit(old(data)@.stack, info@.pop, spec_expand(info@.push, input@)) is Some
            && spec_stack_edit(old(data)@.call_stack, info@.pop_call, spec_expand(info@.push_call, input@)) is Some)),
        ok ==> final(data)@ == (DataView {
            stack: spec_stack_edit(old(data)@.stack, info@.pop, spec_expand(info@.push, input@))->Some_0,
            call_stack: spec_stack_edit(old(data)@.call_stack, info@.pop_call, spec_expand(info@.push_call, input@))->Some_0,
            fallback: old(data)@.fallback,
        }),
{
    match info.pop {
        Some(x) => {
            if x <= data.stack.len() {
                let newlen = data.stack.len() - x;
                let ghost before = data.stack.deep_view();
                data.stack.truncate(newlen);
                proof {
                    assert(data.stack.deep_view() =~= before.take(before.len() - x as int));
                }
            } else {
                return false;
            }
        },
        None => {
            data.stack.truncate(0);
            proof {
                assert(data.stack.deep_view() =~= Seq::<Seq<char>>::empty());
            }
        },
    }
    let pushed = info.push.flatten1(input);
    extend_strings(&mut data.stack, &pushed);
    match info.pop_call {
        Some(x) => {
            if x <= data.call_stack.len() {
                let newlen = data.call_stack.len() - x;
                let ghost before = data.call_stack.deep_view();
                data.call_stack.truncate(newlen);
                proof {
                    assert(data.call_stack.deep_view() =~= before.take(before.len() - x as int));
                }
            } else {
                return false;
            }
        },
        None => {
            data.call_stack.truncate(0);
            proof {
                assert(data.call_stack.deep_view() =~= Seq::<Seq<char>>::empty());
            }
        },
    }
    let pushed_call = info.push_call.flatten1(input);
    extend_strings(&mut data.call_stack, &pushed_call);
    proof {
        assert(Seq::<Seq<char>>::empty() + spec_expand(info@.push, input@) =~= spec_expand(info@.push, input@));
        assert(Seq::<Seq<char>>::empty() + spec_expand(info@.push_call, input@) =~= spec_expand(info@.push_call, input@));
    }
    true
}

/// The invocation of the active submenu script: the call-stack top as the
/// command, the value stack in reverse as its arguments, and the decimal
/// depth of the rest of the call stack for the script's environment.
pub struct ScriptCall {
    pub argv0: String,
    pub args: Vec<String>,
    pub depth: String,
}

pub fn script_call(data: &Data) -> (r: Option<ScriptCall>)
    ensures
        r is None <==> data@.call_stack.len() == 0,
        r matches Some(c) ==> {
            &&& c.argv0@ == data@.call_stack.last()
            &&& c.args.deep_view() == data@.stack.reverse()
            &&& c.depth@ == spec_dec_nat((data@.call_stack.len() - 1) as nat)
        },
{
    let n = data.call_stack.len();
    if n == 0 {
        return None;
    }
    let argv0 = data.call_stack[n - 1].clone();
    let m = data.stack.len();
    let mut args: Vec<String> = Vec::new();
    let mut i: usize = 0;
    while i < m
        invariant
            i <= m,
            m == data@.stack.len(),
            args.deep_view() =~= data@.stack.reverse().subrange(0, i as int),
        decreases m - i,
    {
        let ghost old_deep = args.deep_view();
        args.push(data.stack[m - 1 - i].clone());
        proof {
            assert(args.deep_view() =~= old_deep.push(data.stack@[m - 1 - i as int]@));
            assert(data@.stack.reverse()[i as int] == data@.stack[m - 1 - i as int]);
            assert(args.deep_view() =~= data@.stack.reverse().subrange(0, i + 1int));
        }
        i = i + 1;
    }
    proof {
        assert(data@.stack.reverse().subrange(0, data@.stack.reverse().len() as int) =~= data@.stack.reverse());
    }
    let depth = usize_to_decimal(n - 1);
    Some(ScriptCall { argv0, args, depth })
}

/// Converts a JSON5 text to strict JSON text; any failure is `None`.
pub fn unjson5(s: &str) -> (r: Option<String>)
    ensures
        r matches Some(t) ==> (json5_parsed(s@) matches Some(j)
            && json_text(j) == Some(t@)),
        r is None ==> (json5_parsed(s@) is None
            || json_text(json5_parsed(s@)->Some_0) is None),
{
    match parse_json5(s) {
        Some(j) => to_json_text(&j),
        None => None,
    }
}

/// The index of the first non-empty line, which must hold the options.
pub open spec fn spec_first_nonempty(lines: Seq<Seq<char>>) -> Option<int>
    decreases lines.len(),
{
    if lines.len() == 0 {
        None
    } else if lines[0].len() > 0 {
        Some(0int)
    } else {
        match spec_first_nonempty(lines.drop_first()) {
            Some(i) => Some(i + 1),
            None => None,
        }
    }
}

proof fn lemma_first_nonempty_at(lines: Seq<Seq<char>>, k: int)
    requires
        0 <= k < lines.len(),
        lines[k].len() > 0,
        forall|j: int| 0 <= j < k ==> lines[j].len() == 0,
    ensures
        spec_first_nonempty(lines) == Some(k),
    decreases k,
{
    if k > 0 {
        lemma_first_nonempty_at(lines.drop_first(), k - 1);
    }
}

proof fn lemma_first_nonempty_none(lines: Seq<Seq<char>>)
    requires
        forall|j: int| 0 <= j < lines.len() ==> lines[j].len() == 0,
    ensures
        spec_first_nonempty(lines) is None,
    decreases lines.len(),
{
    if lines.len() > 0 {
        lemma_first_nonempty_none(lines.drop_first());
    }
}

/// The row a line denotes: empty lines and lines that fail the row
/// grammar denote none.
pub open spec fn spec_line_row(s: Seq<char>) -> Option<RowView> {
    if s.len() == 0 {
        None
    } else {
        match json5_parsed(s) {
            Some(j) => spec_decode_row(j),
            None => None,
        }
    }
}

/// A line's row together with its encoding, when the row is renderable.
pub open spec fn spec_line_rendered(s: Seq<char>) -> Option<(RowView, Seq<char>)> {
    match spec_line_row(s) {
        Some(r) => match spec_row_to_rofi(r) {
            Some(t) => Some((r, t)),
            None => None,
        },
        None => None,
    }
}

/// The renderable rows among the lines from `start` on, in order, each
/// with its encoding.
pub open spec fn spec_rendered_from(lines: Seq<Seq<char>>, start: int) -> Seq<(RowView, Seq<char>)>
    decreases lines.len(),
{
    if lines.len() == 0 || lines.len() <= start {
        Seq::empty()
    } else {
        spec_rendered_from(lines.drop_last(), start) + (match spec_line_rendered(lines.last()) {
            Some(p) => seq![p],
            None => Seq::empty(),
        })
    }
}

/// The indices, from `start` on, of non-empty lines that fail the row
/// grammar; they are reported and skipped, never fatal.
pub open spec fn spec_skipped_from(lines: Seq<Seq<char>>, start: int) -> Seq<int>
    decreases lines.len(),
{
    if lines.len() == 0 || lines.len() <= start {
        Seq::empty()
    } else {
        spec_skipped_from(lines.drop_last(), start) + (if lines.last().len() > 0
            && spec_line_row(lines.last()) is None {
            seq![lines.len() - 1]
        } else {
            Seq::empty()
        })
    }
}

/// Encoded rows joined by the record delimiter, with no trailing one.
pub open spec fn spec_joined_rows(rows: Seq<Seq<char>>) -> Seq<char>
    decreases rows,
{
    if rows.len() == 0 {
        Seq::empty()
    } else if rows.len() == 1 {
        rows[0]
    } else {
        spec_joined_rows(rows.drop_last()) + "\x0b"@ + rows.last()
    }
}

/// The options in force once the script's own options line is combined
/// with the driver's state and the transition's override: the stacks to
/// carry on are the driver's, and a `menu` override merges on top.
pub open spec fn spec_effective_options(d: DataView, i: InfoView, ov: ModeOptionsView) -> ModeOptionsView {
    let ov1 = ModeOptionsView {
        data: DataView { stack: d.stack, call_stack: d.call_stack, fallback: ov.data.fallback },
        ..ov
    };
    match i.menu {
        Some(m) => spec_merge(ov1, *m),
        None => ov1,
    }
}

/// What one invocation hands back to its surroundings.
pub enum Outcome {
    /// Write these bytes to the host and exit.
    Emit(String),
    /// Write nothing: re-enter the step machine with this state, this
    /// transition and this input.  The autoselect case.
    Again { data: Data, info: Info, input: String },
}

/// The mathematical model of an [`Outcome`].
pub enum OutcomeView {
    Emit(Seq<char>),
    Again { data: DataView, info: InfoView, input: Seq<char> },
}

pub open spec fn outcome_view(o: Outcome) -> OutcomeView {
    match o {
        Outcome::Emit(s) => OutcomeView::Emit(s@),
        Outcome::Again { data, info, input } => OutcomeView::Again {
            data: crate::data::data_view(data),
            info: crate::data::info_view(info),
            input: input@,
        },
    }
}

impl View for Outcome {
    type V = OutcomeView;

    open spec fn view(&self) -> OutcomeView {
        outcome_view(*self)
    }
}

/// The bytes an outcome writes to the host: an emission writes its
/// block; a re-entry writes nothing.
pub open spec fn spec_outcome_bytes(o: OutcomeView) -> Seq<char> {
    match o {
        OutcomeView::Emit(b) => b,
        OutcomeView::Again { .. } => Seq::empty(),
    }
}

/// Why a script's output could not be processed.
#[derive(Debug, PartialEq, Eq, Structural)]
pub enum OutputError {
    /// The script wrote no non-empty line.
    NoOptionsLine,
    /// The first non-empty line does not follow the options schema.
    BadOptionsLine,
    /// The state to carry on does not serialize; no state this crate
    /// builds fails to.
    UnencodableState,
}

/// The outcome an invocation owes for the given state, transition and
/// script output: the options come from the first non-empty line; the
/// renderable rows follow; exactly one of them under autoselect re-enters
/// the machine, anything else is emitted.
pub open spec fn spec_process_output(d: DataView, i: InfoView, lines: Seq<Seq<char>>) -> Result<OutcomeView, OutputError> {
    match spec_first_nonempty(lines) {
        None => Err(OutputError::NoOptionsLine),
        Some(oi) => {
            let parsed = match json5_parsed(lines[oi]) {
                Some(j) => spec_decode_options(j),
                None => None,
            };
            match parsed {
                None => Err(OutputError::BadOptionsLine),
                Some(ov) => {
                    let ov2 = spec_effective_options(d, i, ov);
                    let rendered = spec_rendered_from(lines, oi + 1);
                    if rendered.len() == 1 && ov2.autoselect {
                        Ok(OutcomeView::Again {
                            data: ov2.data,
                            info: rendered[0].0.info,
                            input: rendered[0].0.text,
                        })
                    } else {
                        match spec_options_to_rofi(ov2) {
                            None => Err(OutputError::UnencodableState),
                            Some(os) => Ok(OutcomeView::Emit(
                                os + spec_joined_rows(rendered.map_values(|p: (RowView, Seq<char>)| p.1)),
                            )),
                        }
                    }
                },
            }
        },
    }
}

/// The outcome together with the indices of the skipped row lines.
pub struct ProcessResult {
    pub outcome: Outcome,
    pub skipped: Vec<usize>,
}

/// Clones a vector of strings.
fn clone_strings(v: &Vec<String>) -> (r: Vec<String>)
    ensures
        r.deep_view() == v.deep_view(),
{
    let mut out: Vec<String> = Vec::new();
    extend_strings(&mut out, v);
    proof {
        assert(out.deep_view() =~= v.deep_view());
    }
    out
}

/// Turns a script's output lines into the invocation's outcome.
#[verifier::loop_isolation(false)]
#[verifier::rlimit(100)]
pub fn process_output(data: &Data, info: &Info, lines: &Vec<String>) -> (r: Result<ProcessResult, OutputError>)
    ensures
        r matches Ok(pr) ==> spec_process_output(data@, info@, lines.deep_view())
            == Ok::<OutcomeView, OutputError>(pr.outcome@),
        r matches Ok(pr) ==> pr.skipped@.map_values(|u: usize| u as int)
            == spec_skipped_from(lines.deep_view(), spec_first_nonempty(lines.deep_view())->Some_0 + 1),
        r matches Err(e) ==> spec_process_output(data@, info@, lines.deep_view())
            == Err::<OutcomeView, OutputError>(e),
{
    let ghost glines = lines.deep_view();
    let mut oi: usize = 0;
    while oi < lines.len() && lines[oi].as_str().is_empty()
        invariant
            oi <= lines.len(),
            forall|j: int| 0 <= j < oi ==> glines[j].len() == 0,
        decreases lines.len() - oi,
    {
        oi = oi + 1;
    }
    if oi == lines.len() {
        proof {
            lemma_first_nonempty_none(glines);
        }
        return Err(OutputError::NoOptionsLine);
    }
    proof {
        lemma_first_nonempty_at(glines, oi as int);
    }
    let base = match parse_json5(lines[oi].as_str()) {
        Some(j) => match decode_options(&j) {
            Some(o) => o,
            None => {
                return Err(OutputError::BadOptionsLine);
            },
        },
        None => {
            return Err(OutputError::BadOptionsLine);
        },
    };
    let mut opts = base;
    opts.data.stack = clone_strings(&data.stack);
    opts.data.call_stack = clone_strings(&data.call_stack);
    match &info.menu {
        Some(m) => {
            opts.merge(&**m);
        },
        None => {},
    }
    let ghost ov2 = spec_effective_options(data@, info@, spec_decode_options(json5_parsed(glines[oi as int])->Some_0)->Some_0);
    proof {
        assert(opts@ == ov2);
    }
    let ghost start = oi + 1int;
    let mut encoded: Vec<String> = Vec::new();
    let mut first_row: Option<Row> = None;
    let mut skipped: Vec<usize> = Vec::new();
    let mut idx: usize = oi + 1;
    while idx < lines.len()
        invariant
            oi + 1 <= idx <= lines.len(),
            encoded.deep_view() =~= spec_rendered_from(glines.take(idx as int), start)
                .map_values(|p: (RowView, Seq<char>)| p.1),
            encoded@.len() > 0 ==> (first_row matches Some(fr)
                && fr@ == spec_rendered_from(glines.take(idx as int), start)[0].0),
            encoded@.len() == 0 ==> first_row is None,
            skipped@.map_values(|u: usize| u as int) =~= spec_skipped_from(glines.take(idx as int), start),
        decreases lines.len() - idx,
    {
        let ghost pre = glines.take(idx as int);
        let ghost post = glines.take(idx + 1int);
        proof {
            assert(post.drop_last() =~= pre);
            assert(post.last() == glines[idx as int]);
        }
        let line = &lines[idx];
        if !line.as_str().is_empty() {
            match parse_json5(line.as_str()) {
                Some(j) => match decode_row(&j) {
                    Some(row) => {
                        match row.to_rofi() {
                            Some(enc) => {
                                let ghost old_encs = encoded.deep_view();
                                if first_row.is_none() {
                                    let ghost rv = row@;
                                    first_row = Some(row);
                                    encoded.push(enc);
                                    proof {
                                        assert(encoded.deep_view() =~= old_encs.push(
                                            spec_line_rendered(glines[idx as int])->Some_0.1));
                                    }
                                } else {
                                    encoded.push(enc);
                                    proof {
                                        assert(encoded.deep_view() =~= old_encs.push(
                                            spec_line_rendered(glines[idx as int])->Some_0.1));
                                    }
                                }
                            },
                            None => {},
                        }
                    },
                    None => {
                        let ghost old_skips = skipped@;
                        skipped.push(idx);
                        proof {
                            assert(skipped@.map_values(|u: usize| u as int)
                                =~= old_skips.map_values(|u: usize| u as int).push(idx as int));
                        }
                    },
                },
                None => {
                    let ghost old_skips = skipped@;
                    skipped.push(idx);
                    proof {
                        assert(skipped@.map_values(|u: usize| u as int)
                            =~= old_skips.map_values(|u: usize| u as int).push(idx as int));
                    }
                },
            }
        }
        proof {
            assert(spec_rendered_from(post, start).map_values(|p: (RowView, Seq<char>)| p.1)
                =~= encoded.deep_view());
            assert(spec_skipped_from(post, start) =~= skipped@.map_values(|u: usize| u as int));
        }
        idx = idx + 1;
    }
    proof {
        assert(glines.take(glines.len() as int) =~= glines);
    }
    let ghost rendered = spec_rendered_from(glines, start);
    if encoded.len() == 1 && opts.autoselect {
        match first_row {
            Some(row) => {
                let skipped_out = skipped;
                return Ok(ProcessResult {
                    outcome: Outcome::Again {
                        data: opts.data,
                        info: row.info,
                        input: row.text,
                    },
                    skipped: skipped_out,
                });
            },
            None => {
                // one encoded row always has a buffered first row
                proof {
                    assert(false);
                }
                return Err(OutputError::NoOptionsLine);
            },
        }
    }
    let os = match opts.to_rofi() {
        Some(s) => s,
        None => {
            return Err(OutputError::UnencodableState);
        },
    };
    let ghost osv = os@;
    let mut out = os;
    let mut k: usize = 0;
    while k < encoded.len()
        invariant
            k <= encoded@.len(),
            out@ =~= osv + spec_joined_rows(encoded.deep_view().take(k as int)),
        decreases encoded.len() - k,
    {
        let ghost jpre = encoded.deep_view().take(k as int);
        let ghost jpost = encoded.deep_view().take(k + 1int);
        proof {
            assert(jpost.drop_last() =~= jpre);
            assert(jpost.last() == encoded.deep_view()[k as int]);
        }
        if k > 0 {
            out.append("\x0b");
        }
        out.append(encoded[k].as_str());
        proof {
            assert(out@ =~= osv + spec_joined_rows(jpost));
        }
        k = k + 1;
    }
    proof {
        assert(encoded.deep_view().take(encoded.deep_view().len() as int) =~= encoded.deep_view());
        assert(encoded.deep_view() =~= rendered.map_values(|p: (RowView, Seq<char>)| p.1));
    }
    Ok(ProcessResult { outcome: Outcome::Emit(out), skipped })
}

/// Every renderable row has non-empty text: a row whose text is empty is
/// suppressed both from the emission and from the autoselect count.
pub proof fn lemma_rendered_rows_have_text(lines: Seq<Seq<char>>, start: int, k: int)
    requires
        0 <= k < spec_rendered_from(lines, start).len(),
    ensures
        spec_rendered_from(lines, start)[k].0.text.len() > 0,
        spec_row_to_rofi(spec_rendered_from(lines, start)[k].0)
            == Some(spec_rendered_from(lines, start)[k].1),
    decreases lines.len(),
{
    if lines.len() == 0 || lines.len() <= start {
    } else {
        let pre = spec_rendered_from(lines.drop_last(), start);
        if k < pre.len() {
            lemma_rendered_rows_have_text(lines.drop_last(), start, k);
        }
    }
}

/// The state the driver passes on is its own: whatever the options line
/// and the transition's override say, the emitted state carries the
/// driver's value stack and call stack unchanged.
pub proof fn lemma_forwarded_state(d: DataView, i: InfoView, ov: ModeOptionsView)
    ensures
        spec_effective_options(d, i, ov).data.stack == d.stack,
        spec_effective_options(d, i, ov).data.call_stack == d.call_stack,
{
}

/// Autoselect: when the rows render to exactly one row and the effective
/// options ask for autoselect, the outcome is a re-entry that carries the
/// forwarded state, the row's transition and the row's text -- and no
/// bytes, since only an emission outcome holds bytes to write.
pub proof fn lemma_autoselect_recurses(d: DataView, i: InfoView, lines: Seq<Seq<char>>)
    requires
        spec_first_nonempty(lines) is Some,
        (match json5_parsed(lines[spec_first_nonempty(lines)->Some_0]) {
            Some(j) => spec_decode_options(j) is Some,
            None => false,
        }),
        spec_rendered_from(lines, spec_first_nonempty(lines)->Some_0 + 1).len() == 1,
        spec_effective_options(
            d,
            i,
            spec_decode_options(json5_parsed(lines[spec_first_nonempty(lines)->Some_0])->Some_0)->Some_0,
        ).autoselect,
    ensures
        ({
            let ov2 = spec_effective_options(
                d,
                i,
                spec_decode_options(json5_parsed(lines[spec_first_nonempty(lines)->Some_0])->Some_0)->Some_0,
            );
            let rendered = spec_rendered_from(lines, spec_first_nonempty(lines)->Some_0 + 1);
            spec_process_output(d, i, lines) == Ok::<OutcomeView, OutputError>(OutcomeView::Again {
                data: ov2.data,
                info: rendered[0].0.info,
                input: rendered[0].0.text,
            })
            && spec_outcome_bytes(spec_process_output(d, i, lines)->Ok_0) =~= Seq::<char>::empty()
        }),
{
}

} // verus!

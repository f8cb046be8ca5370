//! The driver's transition record and its persistent state.
//!
//! An [`Info`] is one transition: stack edits, an optional side-effect
//! command, and an optional options override.  A [`Data`] is everything
//! that survives between invocations: the value stack, the call stack of
//! submenu scripts, and the fallback transition for freeform input.
//! Both have an exact JSON schema, one key per field, all keys required;
//! it is the schema of the two environment variables the host carries.

use vstd::prelude::*;
use vstd::multiset::Multiset;

use crate::json::{Json, JsonView, json_view, json_pairs_view, json_seq_view,
    lemma_json_pairs_view_len, lemma_json_pairs_view_index,
    lemma_json_seq_view_len, lemma_json_seq_view_index};
use crate::options::{ModeOptions, ModeOptionsView, mode_options_view, spec_encode_options};
use crate::value::{VecString, VecStringView, vecstring_view, spec_encode_value, encode_value};

verus! {

/// One transition: what happens when a row is chosen (or freeform input
/// is submitted).
pub struct Info {
    /// Entries pushed onto the call stack.
    pub push_call: VecString,
    /// Entries pushed onto the value stack.
    pub push: VecString,
    /// How many call-stack entries to pop first; `None` clears the stack.
    pub pop_call: Option<usize>,
    /// How many value-stack entries to pop first; `None` clears the stack.
    pub pop: Option<usize>,
    /// A side-effect command to run before the stack edits.
    pub exec_cmd: VecString,
    /// Whether the side effect runs detached, with the driver returning
    /// at once.
    pub fork: bool,
    /// Options merged over the next script's own options line.
    pub menu: Option<Box<ModeOptions>>,
}

/// The mathematical model of an [`Info`].
pub struct InfoView {
    pub push_call: VecStringView,
    pub push: VecStringView,
    pub pop_call: Option<usize>,
    pub pop: Option<usize>,
    pub exec_cmd: VecStringView,
    pub fork: bool,
    pub menu: Option<Box<ModeOptionsView>>,
}

pub open spec fn info_view(i: Info) -> InfoView
    decreases i,
{
    InfoView {
        push_call: vecstring_view(i.push_call),
        push: vecstring_view(i.push),
        pop_call: i.pop_call,
        pop: i.pop,
        exec_cmd: vecstring_view(i.exec_cmd),
        fork: i.fork,
        menu: match i.menu {
            Some(b) => Some(Box::new(mode_options_view(*b))),
            None => None,
        },
    }
}

impl View for Info {
    type V = InfoView;

    open spec fn view(&self) -> InfoView {
        info_view(*self)
    }
}

impl DeepView for Info {
    type V = InfoView;

    open spec fn deep_view(&self) -> InfoView {
        info_view(*self)
    }
}

/// The state that survives between invocations.
pub struct Data {
    /// The value stack, most recent entry last.
    pub stack: Vec<String>,
    /// The call stack of submenu scripts; the top names the active one.
    pub call_stack: Vec<String>,
    /// The transition to apply when the user submits freeform input.
    pub fallback: Option<Info>,
}

/// The mathematical model of a [`Data`].
pub struct DataView {
    pub stack: Seq<Seq<char>>,
    pub call_stack: Seq<Seq<char>>,
    pub fallback: Option<InfoView>,
}

pub open spec fn data_view(d: Data) -> DataView
    decreases d,
{
    DataView {
        stack: d.stack.deep_view(),
        call_stack: d.call_stack.deep_view(),
        fallback: match d.fallback {
            Some(i) => Some(info_view(i)),
            None => None,
        },
    }
}

impl View for Data {
    type V = DataView;

    open spec fn view(&self) -> DataView {
        data_view(*self)
    }
}

impl DeepView for Data {
    type V = DataView;

    open spec fn deep_view(&self) -> DataView {
        data_view(*self)
    }
}

/// The transition that changes nothing: pop zero, push nothing, no
/// command, no options override.
pub open spec fn spec_info_default() -> InfoView {
    InfoView {
        push_call: VecStringView::Multi(Seq::empty()),
        push: VecStringView::Multi(Seq::empty()),
        pop_call: Some(0usize),
        pop: Some(0usize),
        exec_cmd: VecStringView::Multi(Seq::empty()),
        fork: false,
        menu: None,
    }
}

impl Default for Info {
    fn default() -> (r: Self)
        ensures
            r@ == spec_info_default(),
    {
        Info {
            push: VecString::Multi(Vec::new()),
            push_call: VecString::Multi(Vec::new()),
            pop: Some(0),
            pop_call: Some(0),
            exec_cmd: VecString::Multi(Vec::new()),
            fork: false,
            menu: None,
        }
    }
}

/// The state of a fresh first launch: empty stacks, no fallback.
pub open spec fn spec_data_default() -> DataView {
    DataView {
        stack: Seq::empty(),
        call_stack: Seq::empty(),
        fallback: None,
    }
}

impl Default for Data {
    fn default() -> (r: Self)
        ensures
            r@ == spec_data_default(),
    {
        let d = Data {
            stack: Vec::new(),
            call_stack: Vec::new(),
            fallback: None,
        };
        proof {
            assert(d.stack.deep_view() =~= Seq::<Seq<char>>::empty());
            assert(d.call_stack.deep_view() =~= Seq::<Seq<char>>::empty());
        }
        d
    }
}

impl Info {
    /// A deep copy; [`Info`] is recursive, so this takes the place of a
    /// derived clone.
    pub fn duplicate(&self) -> (r: Self)
        ensures
            r@ == self@,
        decreases self,
    {
        Info {
            push_call: self.push_call.duplicate(),
            push: self.push.duplicate(),
            pop_call: self.pop_call,
            pop: self.pop,
            exec_cmd: self.exec_cmd.duplicate(),
            fork: self.fork,
            menu: match &self.menu {
                Some(m) => Some(Box::new(m.duplicate())),
                None => None,
            },
        }
    }
}

impl Data {
    /// A deep copy; [`Data`] is recursive through the fallback
    /// transition, so this takes the place of a derived clone.
    pub fn duplicate(&self) -> (r: Self)
        ensures
            r@ == self@,
        decreases self,
    {
        let mut stack: Vec<String> = Vec::new();
        let mut i: usize = 0;
        while i < self.stack.len()
            invariant
                i <= self.stack.len(),
                stack.deep_view() =~= self.stack@.subrange(0, i as int).map_values(|s: String| s@),
            decreases self.stack.len() - i,
        {
            let ghost old_deep = stack.deep_view();
            stack.push(self.stack[i].clone());
            proof {
                assert(stack.deep_view() =~= old_deep.push(self.stack@[i as int]@));
                assert(old_deep.push(self.stack@[i as int]@) =~= self.stack@.subrange(0, i + 1int).map_values(|s: String| s@));
            }
            i = i + 1;
        }
        let mut call_stack: Vec<String> = Vec::new();
        let mut k: usize = 0;
        while k < self.call_stack.len()
            invariant
                k <= self.call_stack.len(),
                call_stack.deep_view() =~= self.call_stack@.subrange(0, k as int).map_values(|s: String| s@),
            decreases self.call_stack.len() - k,
        {
            let ghost old_deep = call_stack.deep_view();
            call_stack.push(self.call_stack[k].clone());
            proof {
                assert(call_stack.deep_view() =~= old_deep.push(self.call_stack@[k as int]@));
                assert(old_deep.push(self.call_stack@[k as int]@) =~= self.call_stack@.subrange(0, k + 1int).map_values(|s: String| s@));
            }
            k = k + 1;
        }
        let r = Data {
            stack,
            call_stack,
            fallback: match &self.fallback {
                Some(i) => Some(i.duplicate()),
                None => None,
            },
        };
        proof {
            assert(self.stack@.subrange(0, self.stack@.len() as int) =~= self.stack@);
            assert(self.call_stack@.subrange(0, self.call_stack@.len() as int) =~= self.call_stack@);
            assert(r.stack.deep_view() =~= self.stack.deep_view());
            assert(r.call_stack.deep_view() =~= self.call_stack.deep_view());
        }
        r
    }
}

/// The JSON shape of an optional pop count: the count itself, or null
/// for "clear the stack".
pub open spec fn spec_encode_opt_usize(x: Option<usize>) -> JsonView {
    match x {
        Some(n) => JsonView::Int(n as int),
        None => JsonView::Null,
    }
}

/// The JSON shape an [`Info`] serializes to: one key per field, in
/// declaration order.
pub open spec fn spec_encode_info(i: InfoView) -> JsonView
    decreases i,
{
    JsonView::Obj(
        seq![
            ("push_call"@, spec_encode_value(i.push_call)),
            ("push"@, spec_encode_value(i.push)),
            ("pop_call"@, spec_encode_opt_usize(i.pop_call)),
            ("pop"@, spec_encode_opt_usize(i.pop)),
            ("exec"@, spec_encode_value(i.exec_cmd)),
            ("fork"@, JsonView::Bool(i.fork)),
            ("menu"@, match i.menu {
                Some(m) => spec_encode_options(*m),
                None => JsonView::Null,
            }),
        ],
    )
}

/// The JSON shape a [`Data`] serializes to: one key per field, in
/// declaration order.
pub open spec fn spec_encode_data(d: DataView) -> JsonView {
    JsonView::Obj(
        seq![
            ("stack"@, JsonView::Arr(d.stack.map_values(|s: Seq<char>| JsonView::Str(s)))),
            ("call_stack"@, JsonView::Arr(d.call_stack.map_values(|s: Seq<char>| JsonView::Str(s)))),
            ("fallback"@, match d.fallback {
                Some(i) => spec_encode_info(i),
                None => JsonView::Null,
            }),
        ],
    )
}

fn encode_opt_usize(x: &Option<usize>) -> (r: Json)
    ensures
        r@ == spec_encode_opt_usize(*x),
{
    match x {
        Some(n) => Json::Int(*n as i128),
        None => Json::Null,
    }
}

pub fn encode_info(i: &Info) -> (r: Json)
    ensures
        r@ == spec_encode_info(i@),
    decreases i,
{
    let menu_j = match &i.menu {
        Some(m) => {
            proof {
                assert(decreases_to!(*i => i.menu));
            }
            crate::options::encode_options(m)
        },
        None => Json::Null,
    };
    let mut pairs: Vec<(String, Json)> = Vec::new();
    pairs.push(("push_call".to_owned(), encode_value(&i.push_call)));
    pairs.push(("push".to_owned(), encode_value(&i.push)));
    pairs.push(("pop_call".to_owned(), encode_opt_usize(&i.pop_call)));
    pairs.push(("pop".to_owned(), encode_opt_usize(&i.pop)));
    pairs.push(("exec".to_owned(), encode_value(&i.exec_cmd)));
    pairs.push(("fork".to_owned(), Json::Bool(i.fork)));
    pairs.push(("menu".to_owned(), menu_j));
    proof {
        reveal_with_fuel(json_pairs_view, 8);
        assert(json_pairs_view(pairs@) =~= spec_encode_info(i@)->Obj_0);
    }
    Json::Obj(pairs)
}

/// Encodes a vector of strings as a JSON array of strings.
pub fn encode_string_vec(v: &Vec<String>) -> (r: Json)
    ensures
        r@ == JsonView::Arr(v.deep_view().map_values(|s: Seq<char>| JsonView::Str(s))),
{
    let mut out: Vec<Json> = Vec::new();
    let mut i: usize = 0;
    while i < v.len()
        invariant
            i <= v.len(),
            json_seq_view(out@) =~= v.deep_view().subrange(0, i as int).map_values(|s: Seq<char>| JsonView::Str(s)),
            out@.len() == i,
        decreases v.len() - i,
    {
        let ghost old_out = out@;
        out.push(Json::Str(v[i].clone()));
        proof {
            assert(out@.drop_last() =~= old_out);
            assert(json_seq_view(out@) == json_seq_view(out@.drop_last()).push(json_view(out@.last())));
            assert(json_seq_view(out@) =~= v.deep_view().subrange(0, i + 1int).map_values(|s: Seq<char>| JsonView::Str(s)));
        }
        i = i + 1;
    }
    proof {
        assert(v.deep_view().subrange(0, v.deep_view().len() as int) =~= v.deep_view());
    }
    Json::Arr(out)
}

pub fn encode_data(d: &Data) -> (r: Json)
    ensures
        r@ == spec_encode_data(d@),
    decreases d,
{
    let fallback_j = match &d.fallback {
        Some(i) => {
            proof {
                assert(decreases_to!(*d => d.fallback));
            }
            encode_info(i)
        },
        None => Json::Null,
    };
    let mut pairs: Vec<(String, Json)> = Vec::new();
    pairs.push(("stack".to_owned(), encode_string_vec(&d.stack)));
    pairs.push(("call_stack".to_owned(), encode_string_vec(&d.call_stack)));
    pairs.push(("fallback".to_owned(), fallback_j));
    proof {
        reveal_with_fuel(json_pairs_view, 4);
        assert(json_pairs_view(pairs@) =~= spec_encode_data(d@)->Obj_0);
    }
    Json::Obj(pairs)
}

/// The value of an optional pop count: an integer that fits `usize`,
/// or null for "clear the stack".
pub open spec fn spec_decode_opt_usize(j: JsonView) -> Option<Option<usize>> {
    match j {
        JsonView::Null => Some(None),
        JsonView::Int(n) => if 0 <= n <= usize::MAX {
            Some(Some(n as usize))
        } else {
            None
        },
        _ => None,
    }
}

pub fn decode_opt_usize(j: &Json) -> (r: Option<Option<usize>>)
    ensures
        r == spec_decode_opt_usize(j@),
{
    match j {
        Json::Null => Some(None),
        Json::Int(n) => if 0 <= *n && *n <= usize::MAX as i128 {
            Some(Some(*n as usize))
        } else {
            None
        },
        _ => None,
    }
}

pub open spec fn spec_decode_bool(j: JsonView) -> Option<bool> {
    match j {
        JsonView::Bool(b) => Some(b),
        _ => None,
    }
}

pub fn decode_bool(j: &Json) -> (r: Option<bool>)
    ensures
        r == spec_decode_bool(j@),
{
    match j {
        Json::Bool(b) => Some(*b),
        _ => None,
    }
}

pub open spec fn spec_decode_string(j: JsonView) -> Option<Seq<char>> {
    match j {
        JsonView::Str(s) => Some(s),
        _ => None,
    }
}

pub fn decode_string(j: &Json) -> (r: Option<String>)
    ensures
        r matches Some(s) ==> spec_decode_string(j@) == Some(s@),
        r is None ==> spec_decode_string(j@) is None,
{
    match j {
        Json::Str(s) => Some(s.clone()),
        _ => None,
    }
}

/// A JSON array whose elements are all strings.
pub open spec fn spec_decode_strings(a: Seq<JsonView>) -> Option<Seq<Seq<char>>>
    decreases a,
{
    if a.len() == 0 {
        Some(Seq::empty())
    } else {
        match (spec_decode_strings(a.drop_last()), spec_decode_string(a.last())) {
            (Some(ss), Some(s)) => Some(ss.push(s)),
            _ => None,
        }
    }
}

pub open spec fn spec_decode_string_vec(j: JsonView) -> Option<Seq<Seq<char>>> {
    match j {
        JsonView::Arr(a) => spec_decode_strings(a),
        _ => None,
    }
}

proof fn lemma_spec_decode_strings_prefix_none(a: Seq<JsonView>, i: int)
    requires
        0 <= i < a.len(),
        spec_decode_string(a[i]) is None,
    ensures
        spec_decode_strings(a) is None,
    decreases a,
{
    if i < a.len() - 1 {
        lemma_spec_decode_strings_prefix_none(a.drop_last(), i);
    }
}

#[verifier::loop_isolation(false)]
pub fn decode_string_vec(j: &Json) -> (r: Option<Vec<String>>)
    ensures
        r matches Some(v) ==> spec_decode_string_vec(j@) == Some(v.deep_view()),
        r is None ==> spec_decode_string_vec(j@) is None,
{
    match j {
        Json::Arr(a) => {
            let mut out: Vec<String> = Vec::new();
            let mut i: usize = 0;
            proof {
                lemma_json_seq_view_len(a@);
            }
            while i < a.len()
                invariant
                    i <= a.len(),
                    spec_decode_strings(json_seq_view(a@).subrange(0, i as int)) == Some(out.deep_view()),
                    out@.len() == i,
                decreases a.len() - i,
            {
                proof {
                    lemma_json_seq_view_index(a@, i as int);
                }
                match &a[i] {
                    Json::Str(s) => {
                        let ghost old_deep = out.deep_view();
                        out.push(s.clone());
                        proof {
                            let pre = json_seq_view(a@).subrange(0, i as int);
                            let post = json_seq_view(a@).subrange(0, i + 1int);
                            assert(post.drop_last() =~= pre);
                            assert(post.last() == json_view(a@[i as int]));
                            assert(out.deep_view() =~= old_deep.push(s@));
                        }
                    },
                    _ => {
                        proof {
                            lemma_spec_decode_strings_prefix_none(json_seq_view(a@), i as int);
                        }
                        return None;
                    },
                }
                i = i + 1;
            }
            proof {
                assert(json_seq_view(a@).subrange(0, a@.len() as int) =~= json_seq_view(a@));
            }
            Some(out)
        },
        _ => None,
    }
}

/// The partially assembled fields of an [`Info`] while its keys are read.
pub struct InfoAcc {
    pub push_call: Option<VecStringView>,
    pub push: Option<VecStringView>,
    pub pop_call: Option<Option<usize>>,
    pub pop: Option<Option<usize>>,
    pub exec_cmd: Option<VecStringView>,
    pub fork: Option<bool>,
    pub menu: Option<Option<ModeOptionsView>>,
}

pub open spec fn spec_info_acc_init() -> InfoAcc {
    InfoAcc {
        push_call: None,
        push: None,
        pop_call: None,
        pop: None,
        exec_cmd: None,
        fork: None,
        menu: None,
    }
}

/// One key of the exact [`Info`] schema: the named field is set from the
/// value; a repeated or unknown key, or a malformed value, fails.
pub open spec fn spec_info_step(acc: InfoAcc, k: Seq<char>, v: JsonView) -> Option<InfoAcc>
    decreases v, 1nat,
{
    if k == "push_call"@ {
        if acc.push_call is Some {
            None
        } else {
            match crate::value::spec_decode_value(v) {
                Some(t) => Some(InfoAcc { push_call: Some(t), ..acc }),
                None => None,
            }
        }
    } else if k == "push"@ {
        if acc.push is Some {
            None
        } else {
            match crate::value::spec_decode_value(v) {
                Some(t) => Some(InfoAcc { push: Some(t), ..acc }),
                None => None,
            }
        }
    } else if k == "pop_call"@ {
        if acc.pop_call is Some {
            None
        } else {
            match spec_decode_opt_usize(v) {
                Some(x) => Some(InfoAcc { pop_call: Some(x), ..acc }),
                None => None,
            }
        }
    } else if k == "pop"@ {
        if acc.pop is Some {
            None
        } else {
            match spec_decode_opt_usize(v) {
                Some(x) => Some(InfoAcc { pop: Some(x), ..acc }),
                None => None,
            }
        }
    } else if k == "exec"@ {
        if acc.exec_cmd is Some {
            None
        } else {
            match crate::value::spec_decode_value(v) {
                Some(t) => Some(InfoAcc { exec_cmd: Some(t), ..acc }),
                None => None,
            }
        }
    } else if k == "fork"@ {
        if acc.fork is Some {
            None
        } else {
            match spec_decode_bool(v) {
                Some(b) => Some(InfoAcc { fork: Some(b), ..acc }),
                None => None,
            }
        }
    } else if k == "menu"@ {
        if acc.menu is Some {
            None
        } else if v is Null {
            Some(InfoAcc { menu: Some(None), ..acc })
        } else {
            match crate::options::spec_decode_options(v) {
                Some(m) => Some(InfoAcc { menu: Some(Some(m)), ..acc }),
                None => None,
            }
        }
    } else {
        None
    }
}

pub open spec fn spec_info_fold(pairs: Seq<(Seq<char>, JsonView)>, acc: InfoAcc) -> Option<InfoAcc>
    decreases pairs, 2nat,
{
    if pairs.len() == 0 {
        Some(acc)
    } else {
        match spec_info_fold(pairs.drop_last(), acc) {
            Some(a) => spec_info_step(a, pairs.last().0, pairs.last().1),
            None => None,
        }
    }
}

/// The exact [`Info`] schema: an object holding every field exactly once,
/// in any order.
pub open spec fn spec_decode_info(j: JsonView) -> Option<InfoView>
    decreases j, 0nat,
{
    match j {
        JsonView::Obj(pairs) => match spec_info_fold(pairs, spec_info_acc_init()) {
            Some(acc) => {
                if acc.push_call is Some && acc.push is Some && acc.pop_call is Some
                    && acc.pop is Some && acc.exec_cmd is Some && acc.fork is Some
                    && acc.menu is Some {
                    Some(InfoView {
                        push_call: acc.push_call->Some_0,
                        push: acc.push->Some_0,
                        pop_call: acc.pop_call->Some_0,
                        pop: acc.pop->Some_0,
                        exec_cmd: acc.exec_cmd->Some_0,
                        fork: acc.fork->Some_0,
                        menu: match acc.menu->Some_0 {
                            Some(m) => Some(Box::new(m)),
                            None => None,
                        },
                    })
                } else {
                    None
                }
            },
            None => None,
        },
        _ => None,
    }
}

proof fn lemma_info_fold_prefix_none(pairs: Seq<(Seq<char>, JsonView)>, i: int, acc: InfoAcc)
    requires
        0 <= i <= pairs.len(),
        spec_info_fold(pairs.subrange(0, i), acc) is None,
    ensures
        spec_info_fold(pairs, acc) is None,
    decreases pairs,
{
    if i == pairs.len() {
        assert(pairs.subrange(0, i) =~= pairs);
    } else {
        assert(pairs.drop_last().subrange(0, i) =~= pairs.subrange(0, i));
        lemma_info_fold_prefix_none(pairs.drop_last(), i, acc);
    }
}

#[verifier::loop_isolation(false)]
pub fn decode_info(j: &Json) -> (r: Option<Info>)
    ensures
        r matches Some(i) ==> spec_decode_info(j@) == Some(i@),
        r is None ==> spec_decode_info(j@) is None,
    decreases j,
{
    match j {
        Json::Obj(pairs) => {
            let mut push_call: Option<VecString> = None;
            let mut push: Option<VecString> = None;
            let mut pop_call: Option<Option<usize>> = None;
            let mut pop: Option<Option<usize>> = None;
            let mut exec_cmd: Option<VecString> = None;
            let mut fork: Option<bool> = None;
            let mut menu: Option<Option<Box<ModeOptions>>> = None;
            let mut i: usize = 0;
            proof {
                lemma_json_pairs_view_len(pairs@);
            }
            while i < pairs.len()
                invariant
                    i <= pairs.len(),
                    spec_info_fold(json_pairs_view(pairs@).subrange(0, i as int), spec_info_acc_init())
                        == Some(InfoAcc {
                            push_call: push_call.deep_view(),
                            push: push.deep_view(),
                            pop_call: pop_call,
                            pop: pop,
                            exec_cmd: exec_cmd.deep_view(),
                            fork: fork,
                            menu: menu.deep_view(),
                        }),
                decreases pairs.len() - i,
            {
                proof {
                    lemma_json_pairs_view_index(pairs@, i as int);
                    assert(decreases_to!(*j => j->Obj_0));
                    assert(decreases_to!(*pairs => pairs@));
                    assert(decreases_to!(pairs@ => pairs@[i as int]));
                    assert(decreases_to!(pairs@[i as int] => pairs@[i as int].1));
                }
                let ghost gpairs = json_pairs_view(pairs@);
                let ghost pre = gpairs.subrange(0, i as int);
                let ghost post = gpairs.subrange(0, i + 1int);
                proof {
                    assert(post.drop_last() =~= pre);
                    assert(post.last() == (pairs@[i as int].0@, json_view(pairs@[i as int].1)));
                }
                let key = &pairs[i].0;
                let val = &pairs[i].1;
                if crate::json::str_eq(key.as_str(), "push_call") {
                    if push_call.is_some() {
                        proof {
                            lemma_info_fold_prefix_none(gpairs, i + 1int, spec_info_acc_init());
                        }
                        return None;
                    }
                    match crate::value::decode_value(val) {
                        Some(t) => {
                            push_call = Some(t);
                        },
                        None => {
                            proof {
                                lemma_info_fold_prefix_none(gpairs, i + 1int, spec_info_acc_init());
                            }
                            return None;
                        },
                    }
                } else if crate::json::str_eq(key.as_str(), "push") {
                    if push.is_some() {
                        proof {
                            lemma_info_fold_prefix_none(gpairs, i + 1int, spec_info_acc_init());
                        }
                        return None;
                    }
                    match crate::value::decode_value(val) {
                        Some(t) => {
                            push = Some(t);
                        },
                        None => {
                            proof {
                                lemma_info_fold_prefix_none(gpairs, i + 1int, spec_info_acc_init());
                            }
                            return None;
                        },
                    }
                } else if crate::json::str_eq(key.as_str(), "pop_call") {
                    if pop_call.is_some() {
                        proof {
                            lemma_info_fold_prefix_none(gpairs, i + 1int, spec_info_acc_init());
                        }
                        return None;
                    }
                    match decode_opt_usize(val) {
                        Some(x) => {
                            pop_call = Some(x);
                        },
                        None => {
                            proof {
                                lemma_info_fold_prefix_none(gpairs, i + 1int, spec_info_acc_init());
                            }
                            return None;
                        },
                    }
                } else if crate::json::str_eq(key.as_str(), "pop") {
                    if pop.is_some() {
                        proof {
                            lemma_info_fold_prefix_none(gpairs, i + 1int, spec_info_acc_init());
                        }
                        return None;
                    }
                    match decode_opt_usize(val) {
                        Some(x) => {
                            pop = Some(x);
                        },
                        None => {
                            proof {
                                lemma_info_fold_prefix_none(gpairs, i + 1int, spec_info_acc_init());
                            }
                            return None;
                        },
                    }
                } else if crate::json::str_eq(key.as_str(), "exec") {
                    if exec_cmd.is_some() {
                        proof {
                            lemma_info_fold_prefix_none(gpairs, i + 1int, spec_info_acc_init());
                        }
                        return None;
                    }
                    match crate::value::decode_value(val) {
                        Some(t) => {
                            exec_cmd = Some(t);
                        },
                        None => {
                            proof {
                                lemma_info_fold_prefix_none(gpairs, i + 1int, spec_info_acc_init());
                            }
                            return None;
                        },
                    }
                } else if crate::json::str_eq(key.as_str(), "fork") {
                    if fork.is_some() {
                        proof {
                            lemma_info_fold_prefix_none(gpairs, i + 1int, spec_info_acc_init());
                        }
                        return None;
                    }
                    match decode_bool(val) {
                        Some(b) => {
                            fork = Some(b);
                        },
                        None => {
                            proof {
                                lemma_info_fold_prefix_none(gpairs, i + 1int, spec_info_acc_init());
                            }
                            return None;
                        },
                    }
                } else if crate::json::str_eq(key.as_str(), "menu") {
                    if menu.is_some() {
                        proof {
                            lemma_info_fold_prefix_none(gpairs, i + 1int, spec_info_acc_init());
                        }
                        return None;
                    }
                    match val {
                        Json::Null => {
                            menu = Some(None);
                        },
                        _ => {
                            match crate::options::decode_options(val) {
                                Some(m) => {
                                    menu = Some(Some(Box::new(m)));
                                },
                                None => {
                                    proof {
                                        lemma_info_fold_prefix_none(gpairs, i + 1int, spec_info_acc_init());
                                    }
                                    return None;
                                },
                            }
                        },
                    }
                } else {
                    proof {
                        lemma_info_fold_prefix_none(gpairs, i + 1int, spec_info_acc_init());
                    }
                    return None;
                }
                i = i + 1;
            }
            proof {
                assert(json_pairs_view(pairs@).subrange(0, pairs@.len() as int) =~= json_pairs_view(pairs@));
            }
            match (push_call, push, pop_call, pop, exec_cmd, fork, menu) {
                (Some(push_call), Some(push), Some(pop_call), Some(pop), Some(exec_cmd), Some(fork), Some(menu)) => {
                    Some(Info { push_call, push, pop_call, pop, exec_cmd, fork, menu })
                },
                _ => None,
            }
        },
        _ => None,
    }
}

/// The partially assembled fields of a [`Data`] while its keys are read.
pub struct DataAcc {
    pub stack: Option<Seq<Seq<char>>>,
    pub call_stack: Option<Seq<Seq<char>>>,
    pub fallback: Option<Option<InfoView>>,
}

pub open spec fn spec_data_acc_init() -> DataAcc {
    DataAcc { stack: None, call_stack: None, fallback: None }
}

/// One key of the exact [`Data`] schema.
pub open spec fn spec_data_step(acc: DataAcc, k: Seq<char>, v: JsonView) -> Option<DataAcc> {
    if k == "stack"@ {
        if acc.stack is Some {
            None
        } else {
            match spec_decode_string_vec(v) {
                Some(ss) => Some(DataAcc { stack: Some(ss), ..acc }),
                None => None,
            }
        }
    } else if k == "call_stack"@ {
        if acc.call_stack is Some {
            None
        } else {
            match spec_decode_string_vec(v) {
                Some(ss) => Some(DataAcc { call_stack: Some(ss), ..acc }),
                None => None,
            }
        }
    } else if k == "fallback"@ {
        if acc.fallback is Some {
            None
        } else if v is Null {
            Some(DataAcc { fallback: Some(None), ..acc })
        } else {
            match spec_decode_info(v) {
                Some(i) => Some(DataAcc { fallback: Some(Some(i)), ..acc }),
                None => None,
            }
        }
    } else {
        None
    }
}

pub open spec fn spec_data_fold(pairs: Seq<(Seq<char>, JsonView)>, acc: DataAcc) -> Option<DataAcc>
    decreases pairs,
{
    if pairs.len() == 0 {
        Some(acc)
    } else {
        match spec_data_fold(pairs.drop_last(), acc) {
            Some(a) => spec_data_step(a, pairs.last().0, pairs.last().1),
            None => None,
        }
    }
}

/// The exact [`Data`] schema: an object holding every field exactly once,
/// in any order.
pub open spec fn spec_decode_data(j: JsonView) -> Option<DataView> {
    match j {
        JsonView::Obj(pairs) => match spec_data_fold(pairs, spec_data_acc_init()) {
            Some(acc) => {
                if acc.stack is Some && acc.call_stack is Some && acc.fallback is Some {
                    Some(DataView {
                        stack: acc.stack->Some_0,
                        call_stack: acc.call_stack->Some_0,
                        fallback: acc.fallback->Some_0,
                    })
                } else {
                    None
                }
            },
            None => None,
        },
        _ => None,
    }
}

proof fn lemma_data_fold_prefix_none(pairs: Seq<(Seq<char>, JsonView)>, i: int, acc: DataAcc)
    requires
        0 <= i <= pairs.len(),
        spec_data_fold(pairs.subrange(0, i), acc) is None,
    ensures
        spec_data_fold(pairs, acc) is None,
    decreases pairs,
{
    if i == pairs.len() {
        assert(pairs.subrange(0, i) =~= pairs);
    } else {
        assert(pairs.drop_last().subrange(0, i) =~= pairs.subrange(0, i));
        lemma_data_fold_prefix_none(pairs.drop_last(), i, acc);
    }
}

#[verifier::loop_isolation(false)]
pub fn decode_data(j: &Json) -> (r: Option<Data>)
    ensures
        r matches Some(d) ==> spec_decode_data(j@) == Some(d@),
        r is None ==> spec_decode_data(j@) is None,
{
    match j {
        Json::Obj(pairs) => {
            let mut stack: Option<Vec<String>> = None;
            let mut call_stack: Option<Vec<String>> = None;
            let mut fallback: Option<Option<Info>> = None;
            let mut i: usize = 0;
            proof {
                lemma_json_pairs_view_len(pairs@);
            }
            while i < pairs.len()
                invariant
                    i <= pairs.len(),
                    spec_data_fold(json_pairs_view(pairs@).subrange(0, i as int), spec_data_acc_init())
                        == Some(DataAcc {
                            stack: stack.deep_view(),
                            call_stack: call_stack.deep_view(),
                            fallback: fallback.deep_view(),
                        }),
                decreases pairs.len() - i,
            {
                proof {
                    lemma_json_pairs_view_index(pairs@, i as int);
                }
                let ghost gpairs = json_pairs_view(pairs@);
                let ghost pre = gpairs.subrange(0, i as int);
                let ghost post = gpairs.subrange(0, i + 1int);
                proof {
                    assert(post.drop_last() =~= pre);
                    assert(post.last() == (pairs@[i as int].0@, json_view(pairs@[i as int].1)));
                }
                let key = &pairs[i].0;
                let val = &pairs[i].1;
                if crate::json::str_eq(key.as_str(), "stack") {
                    if stack.is_some() {
                        proof {
                            lemma_data_fold_prefix_none(gpairs, i + 1int, spec_data_acc_init());
                        }
                        return None;
                    }
                    match decode_string_vec(val) {
                        Some(v) => {
                            stack = Some(v);
                        },
                        None => {
                            proof {
                                lemma_data_fold_prefix_none(gpairs, i + 1int, spec_data_acc_init());
                            }
                            return None;
                        },
                    }
                } else if crate::json::str_eq(key.as_str(), "call_stack") {
                    if call_stack.is_some() {
                        proof {
                            lemma_data_fold_prefix_none(gpairs, i + 1int, spec_data_acc_init());
                        }
                        return None;
                    }
                    match decode_string_vec(val) {
                        Some(v) => {
                            call_stack = Some(v);
                        },
                        None => {
                            proof {
                                lemma_data_fold_prefix_none(gpairs, i + 1int, spec_data_acc_init());
                            }
                            return None;
                        },
                    }
                } else if crate::json::str_eq(key.as_str(), "fallback") {
                    if fallback.is_some() {
                        proof {
                            lemma_data_fold_prefix_none(gpairs, i + 1int, spec_data_acc_init());
                        }
                        return None;
                    }
                    match val {
                        Json::Null => {
                            fallback = Some(None);
                        },
                        _ => {
                            match decode_info(val) {
                                Some(inf) => {
                                    fallback = Some(Some(inf));
                                },
                                None => {
                                    proof {
                                        lemma_data_fold_prefix_none(gpairs, i + 1int, spec_data_acc_init());
                                    }
                                    return None;
                                },
                            }
                        },
                    }
                } else {
                    proof {
                        lemma_data_fold_prefix_none(gpairs, i + 1int, spec_data_acc_init());
                    }
                    return None;
                }
                i = i + 1;
            }
            proof {
                assert(json_pairs_view(pairs@).subrange(0, pairs@.len() as int) =~= json_pairs_view(pairs@));
            }
            match (stack, call_stack, fallback) {
                (Some(stack), Some(call_stack), Some(fallback)) => {
                    Some(Data { stack, call_stack, fallback })
                },
                _ => None,
            }
        },
        _ => None,
    }
}

/// The transitions whose serialization the exact schema reads back: any,
/// as long as an options override carried under `menu` is itself clean.
pub open spec fn spec_info_clean(i: InfoView) -> bool {
    match i.menu {
        None => true,
        Some(m) => crate::options::spec_options_clean(*m),
    }
}

/// The states whose serialization the exact schema reads back: any, as
/// long as a stored fallback transition is clean.
pub open spec fn spec_data_clean(d: DataView) -> bool {
    match d.fallback {
        None => true,
        Some(f) => spec_info_clean(f),
    }
}

proof fn lemma_info_fold_push(s: Seq<(Seq<char>, JsonView)>, p: (Seq<char>, JsonView), init: InfoAcc)
    ensures
        spec_info_fold(s.push(p), init) == (match spec_info_fold(s, init) {
            Some(a) => spec_info_step(a, p.0, p.1),
            None => None,
        }),
{
    assert(s.push(p).drop_last() =~= s);
    assert(s.push(p).last() == p);
}

proof fn lemma_data_fold_push(s: Seq<(Seq<char>, JsonView)>, p: (Seq<char>, JsonView), init: DataAcc)
    ensures
        spec_data_fold(s.push(p), init) == (match spec_data_fold(s, init) {
            Some(a) => spec_data_step(a, p.0, p.1),
            None => None,
        }),
{
    assert(s.push(p).drop_last() =~= s);
    assert(s.push(p).last() == p);
}

/// Transition round trip: a clean transition decodes back from its own
/// serialization.
pub proof fn lemma_info_round_trip(i: InfoView)
    requires
        spec_info_clean(i),
    ensures
        spec_decode_info(spec_encode_info(i)) == Some(i),
{
    reveal_strlit("push_call");
    reveal_strlit("push");
    reveal_strlit("pop_call");
    reveal_strlit("pop");
    reveal_strlit("exec");
    reveal_strlit("fork");
    reveal_strlit("menu");
    assert("push"@ !~= "push_call"@);
    assert("push"@ != "push_call"@);
    assert("pop_call"@ !~= "push_call"@);
    assert("pop_call"@ != "push_call"@);
    assert("pop_call"@ !~= "push"@);
    assert("pop_call"@ != "push"@);
    assert("pop"@ !~= "push_call"@);
    assert("pop"@ != "push_call"@);
    assert("pop"@ !~= "push"@);
    assert("pop"@ != "push"@);
    assert("pop"@ !~= "pop_call"@);
    assert("pop"@ != "pop_call"@);
    assert("exec"@ !~= "push_call"@);
    assert("exec"@ != "push_call"@);
    assert("exec"@[0] != "push"@[0]);
    assert("exec"@ != "push"@);
    assert("exec"@ !~= "pop_call"@);
    assert("exec"@ != "pop_call"@);
    assert("exec"@ !~= "pop"@);
    assert("exec"@ != "pop"@);
    assert("fork"@ !~= "push_call"@);
    assert("fork"@ != "push_call"@);
    assert("fork"@[0] != "push"@[0]);
    assert("fork"@ != "push"@);
    assert("fork"@ !~= "pop_call"@);
    assert("fork"@ != "pop_call"@);
    assert("fork"@ !~= "pop"@);
    assert("fork"@ != "pop"@);
    assert("fork"@[0] != "exec"@[0]);
    assert("fork"@ != "exec"@);
    assert("menu"@ !~= "push_call"@);
    assert("menu"@ != "push_call"@);
    assert("menu"@[0] != "push"@[0]);
    assert("menu"@ != "push"@);
    assert("menu"@ !~= "pop_call"@);
    assert("menu"@ != "pop_call"@);
    assert("menu"@ !~= "pop"@);
    assert("menu"@ != "pop"@);
    assert("menu"@[0] != "exec"@[0]);
    assert("menu"@ != "exec"@);
    assert("menu"@[0] != "fork"@[0]);
    assert("menu"@ != "fork"@);
    let p1 = ("push_call"@, spec_encode_value(i.push_call));
    let p2 = ("push"@, spec_encode_value(i.push));
    let p3 = ("pop_call"@, spec_encode_opt_usize(i.pop_call));
    let p4 = ("pop"@, spec_encode_opt_usize(i.pop));
    let p5 = ("exec"@, spec_encode_value(i.exec_cmd));
    let p6 = ("fork"@, JsonView::Bool(i.fork));
    let p7 = ("menu"@, match i.menu {
        Some(m) => crate::options::spec_encode_options(*m),
        None => JsonView::Null,
    });
    let s0 = Seq::<(Seq<char>, JsonView)>::empty();
    let s1 = s0.push(p1);
    let s2 = s1.push(p2);
    let s3 = s2.push(p3);
    let s4 = s3.push(p4);
    let s5 = s4.push(p5);
    let s6 = s5.push(p6);
    let s7 = s6.push(p7);
    assert(spec_encode_info(i)->Obj_0 =~= s7);
    crate::value::lemma_value_round_trip(i.push_call);
    crate::value::lemma_value_round_trip(i.push);
    crate::value::lemma_value_round_trip(i.exec_cmd);
    let a0 = spec_info_acc_init();
    lemma_info_fold_push(s0, p1, a0);
    let a1 = spec_info_fold(s1, a0)->Some_0;
    assert(a1 == InfoAcc { push_call: Some(i.push_call), ..a0 });
    lemma_info_fold_push(s1, p2, a0);
    let a2 = spec_info_fold(s2, a0)->Some_0;
    assert(a2 == InfoAcc { push: Some(i.push), ..a1 });
    lemma_info_fold_push(s2, p3, a0);
    let a3 = spec_info_fold(s3, a0)->Some_0;
    assert(a3 == InfoAcc { pop_call: Some(i.pop_call), ..a2 });
    lemma_info_fold_push(s3, p4, a0);
    let a4 = spec_info_fold(s4, a0)->Some_0;
    assert(a4 == InfoAcc { pop: Some(i.pop), ..a3 });
    lemma_info_fold_push(s4, p5, a0);
    let a5 = spec_info_fold(s5, a0)->Some_0;
    assert(a5 == InfoAcc { exec_cmd: Some(i.exec_cmd), ..a4 });
    lemma_info_fold_push(s5, p6, a0);
    let a6 = spec_info_fold(s6, a0)->Some_0;
    assert(a6 == InfoAcc { fork: Some(i.fork), ..a5 });
    lemma_info_fold_push(s6, p7, a0);
    match i.menu {
        None => {
            assert(spec_info_step(a6, p7.0, p7.1) == Some(InfoAcc { menu: Some(None), ..a6 }));
        },
        Some(m) => {
            crate::options::lemma_options_round_trip(*m);
            assert(spec_info_step(a6, p7.0, p7.1) == Some(InfoAcc { menu: Some(Some(*m)), ..a6 }));
        },
    }
    let a7 = spec_info_fold(s7, a0)->Some_0;
    assert(spec_decode_info(spec_encode_info(i)) == Some(InfoView {
        push_call: i.push_call,
        push: i.push,
        pop_call: i.pop_call,
        pop: i.pop,
        exec_cmd: i.exec_cmd,
        fork: i.fork,
        menu: match a7.menu->Some_0 {
            Some(m) => Some(Box::new(m)),
            None => None,
        },
    }));
    match i.menu {
        None => {},
        Some(m) => {
            assert(a7.menu->Some_0 == Some(*m));
            assert(Some(Box::new(*m)) == i.menu);
        },
    }
}

proof fn lemma_strings_round_trip(ss: Seq<Seq<char>>)
    ensures
        spec_decode_strings(ss.map_values(|s: Seq<char>| JsonView::Str(s))) == Some(ss),
    decreases ss.len(),
{
    let m = ss.map_values(|s: Seq<char>| JsonView::Str(s));
    if ss.len() == 0 {
        assert(Some(Seq::<Seq<char>>::empty()) == Some(ss)) by {
            assert(Seq::<Seq<char>>::empty() =~= ss);
        }
    } else {
        lemma_strings_round_trip(ss.drop_last());
        assert(m.drop_last() =~= ss.drop_last().map_values(|s: Seq<char>| JsonView::Str(s)));
        assert(m.last() == JsonView::Str(ss.last()));
        assert(ss.drop_last().push(ss.last()) =~= ss);
    }
}

/// State round trip: a clean state decodes back from its own
/// serialization.
pub proof fn lemma_data_round_trip(d: DataView)
    requires
        spec_data_clean(d),
    ensures
        spec_decode_data(spec_encode_data(d)) == Some(d),
{
    reveal_strlit("stack");
    reveal_strlit("call_stack");
    reveal_strlit("fallback");
    assert("call_stack"@ !~= "stack"@);
    assert("call_stack"@ != "stack"@);
    assert("fallback"@ !~= "stack"@);
    assert("fallback"@ != "stack"@);
    assert("fallback"@ !~= "call_stack"@);
    assert("fallback"@ != "call_stack"@);
    let p1 = ("stack"@, JsonView::Arr(d.stack.map_values(|s: Seq<char>| JsonView::Str(s))));
    let p2 = ("call_stack"@, JsonView::Arr(d.call_stack.map_values(|s: Seq<char>| JsonView::Str(s))));
    let p3 = ("fallback"@, match d.fallback {
        Some(f) => spec_encode_info(f),
        None => JsonView::Null,
    });
    let s0 = Seq::<(Seq<char>, JsonView)>::empty();
    let s1 = s0.push(p1);
    let s2 = s1.push(p2);
    let s3 = s2.push(p3);
    assert(spec_encode_data(d)->Obj_0 =~= s3);
    lemma_strings_round_trip(d.stack);
    lemma_strings_round_trip(d.call_stack);
    let a0 = spec_data_acc_init();
    lemma_data_fold_push(s0, p1, a0);
    let a1 = spec_data_fold(s1, a0)->Some_0;
    assert(a1 == DataAcc { stack: Some(d.stack), ..a0 });
    lemma_data_fold_push(s1, p2, a0);
    let a2 = spec_data_fold(s2, a0)->Some_0;
    assert(a2 == DataAcc { call_stack: Some(d.call_stack), ..a1 });
    lemma_data_fold_push(s2, p3, a0);
    match d.fallback {
        None => {
            assert(spec_data_step(a2, p3.0, p3.1) == Some(DataAcc { fallback: Some(None), ..a2 }));
        },
        Some(f) => {
            lemma_info_round_trip(f);
            assert(spec_data_step(a2, p3.0, p3.1) == Some(DataAcc { fallback: Some(Some(f)), ..a2 }));
        },
    }
    assert(spec_decode_data(spec_encode_data(d)) == Some(DataView {
        stack: d.stack,
        call_stack: d.call_stack,
        fallback: d.fallback,
    }));
}

/// Whether a pair of the exact transition schema is in serialized form:
/// only the `menu` value could fail to be, since the options schema
/// serializes a kept selection and a fallback transition differently
/// from how it reads them.
pub open spec fn spec_canonical_info_pair(p: (Seq<char>, JsonView)) -> bool {
    p.0 == "menu"@ ==> (p.1 is Null || (match crate::options::spec_decode_options(p.1) {
        Some(m) => crate::options::spec_encode_options(m) == p.1,
        None => true,
    }))
}

/// The pairs, re-serialized, that a partially read transition stands for.
pub open spec fn spec_info_acc_pairs(acc: InfoAcc) -> Multiset<(Seq<char>, JsonView)> {
    (match acc.push_call {
        Some(t) => Multiset::singleton(("push_call"@, crate::value::spec_encode_value(t))),
        None => Multiset::empty(),
    }).add(match acc.push {
        Some(t) => Multiset::singleton(("push"@, crate::value::spec_encode_value(t))),
        None => Multiset::empty(),
    }).add(match acc.pop_call {
        Some(x) => Multiset::singleton(("pop_call"@, spec_encode_opt_usize(x))),
        None => Multiset::empty(),
    }).add(match acc.pop {
        Some(x) => Multiset::singleton(("pop"@, spec_encode_opt_usize(x))),
        None => Multiset::empty(),
    }).add(match acc.exec_cmd {
        Some(t) => Multiset::singleton(("exec"@, crate::value::spec_encode_value(t))),
        None => Multiset::empty(),
    }).add(match acc.fork {
        Some(b) => Multiset::singleton(("fork"@, JsonView::Bool(b))),
        None => Multiset::empty(),
    }).add(match acc.menu {
        Some(Some(m)) => Multiset::singleton(("menu"@, crate::options::spec_encode_options(m))),
        Some(None) => Multiset::singleton(("menu"@, JsonView::Null)),
        None => Multiset::empty(),
    })
}

#[verifier::rlimit(100)]
#[verifier::spinoff_prover]
proof fn lemma_acc_insert_push_call(a: InfoAcc, t: VecStringView)
    requires
        a.push_call is None,
    ensures
        spec_info_acc_pairs(InfoAcc { push_call: Some(t), ..a })
            =~= spec_info_acc_pairs(a).insert(("push_call"@, crate::value::spec_encode_value(t))),
{
}

#[verifier::rlimit(100)]
#[verifier::spinoff_prover]
proof fn lemma_acc_insert_push(a: InfoAcc, t: VecStringView)
    requires
        a.push is None,
    ensures
        spec_info_acc_pairs(InfoAcc { push: Some(t), ..a })
            =~= spec_info_acc_pairs(a).insert(("push"@, crate::value::spec_encode_value(t))),
{
}

#[verifier::rlimit(100)]
#[verifier::spinoff_prover]
proof fn lemma_acc_insert_pop_call(a: InfoAcc, x: Option<usize>)
    requires
        a.pop_call is None,
    ensures
        spec_info_acc_pairs(InfoAcc { pop_call: Some(x), ..a })
            =~= spec_info_acc_pairs(a).insert(("pop_call"@, spec_encode_opt_usize(x))),
{
}

#[verifier::rlimit(100)]
#[verifier::spinoff_prover]
proof fn lemma_acc_insert_pop(a: InfoAcc, x: Option<usize>)
    requires
        a.pop is None,
    ensures
        spec_info_acc_pairs(InfoAcc { pop: Some(x), ..a })
            =~= spec_info_acc_pairs(a).insert(("pop"@, spec_encode_opt_usize(x))),
{
}

#[verifier::rlimit(100)]
#[verifier::spinoff_prover]
proof fn lemma_acc_insert_exec(a: InfoAcc, t: VecStringView)
    requires
        a.exec_cmd is None,
    ensures
        spec_info_acc_pairs(InfoAcc { exec_cmd: Some(t), ..a })
            =~= spec_info_acc_pairs(a).insert(("exec"@, crate::value::spec_encode_value(t))),
{
}

#[verifier::rlimit(100)]
#[verifier::spinoff_prover]
proof fn lemma_acc_insert_fork(a: InfoAcc, b: bool)
    requires
        a.fork is None,
    ensures
        spec_info_acc_pairs(InfoAcc { fork: Some(b), ..a })
            =~= spec_info_acc_pairs(a).insert(("fork"@, JsonView::Bool(b))),
{
}

#[verifier::rlimit(100)]
#[verifier::spinoff_prover]
proof fn lemma_acc_insert_menu(a: InfoAcc, m: Option<ModeOptionsView>)
    requires
        a.menu is None,
    ensures
        spec_info_acc_pairs(InfoAcc { menu: Some(m), ..a })
            =~= spec_info_acc_pairs(a).insert(("menu"@, match m {
                Some(mo) => crate::options::spec_encode_options(mo),
                None => JsonView::Null,
            })),
{
}

#[verifier::rlimit(100)]
#[verifier::spinoff_prover]
proof fn lemma_info_fold_pairs(pairs: Seq<(Seq<char>, JsonView)>, acc: InfoAcc)
    requires
        spec_info_fold(pairs, acc) is Some,
        forall|n: int| 0 <= n < pairs.len() ==> spec_canonical_info_pair(#[trigger] pairs[n]),
    ensures
        spec_info_acc_pairs(spec_info_fold(pairs, acc)->Some_0)
            =~= spec_info_acc_pairs(acc).add(pairs.to_multiset()),
    decreases pairs.len(),
{
    if pairs.len() == 0 {
        pairs.to_multiset_ensures();
        assert(pairs.to_multiset() =~= Multiset::empty());
    } else {
        lemma_info_fold_pairs(pairs.drop_last(), acc);
        let a = spec_info_fold(pairs.drop_last(), acc)->Some_0;
        let k = pairs.last().0;
        let v = pairs.last().1;
        pairs.drop_last().to_multiset_ensures();
        assert(pairs.drop_last().push(pairs.last()) =~= pairs);
        assert(pairs.drop_last().push(pairs.last()).to_multiset()
            =~= pairs.drop_last().to_multiset().insert(pairs.last()));
        assert(pairs.to_multiset() =~= pairs.drop_last().to_multiset().insert(pairs.last()));
        let acc2 = spec_info_step(a, k, v)->Some_0;
        if k == "push_call"@ {
            crate::value::lemma_value_round_trip_json(v);
            lemma_acc_insert_push_call(a, crate::value::spec_decode_value(v)->Some_0);
            assert(spec_info_acc_pairs(acc2) =~= spec_info_acc_pairs(a).insert((k, v)));
        } else if k == "push"@ {
            crate::value::lemma_value_round_trip_json(v);
            lemma_acc_insert_push(a, crate::value::spec_decode_value(v)->Some_0);
            assert(spec_info_acc_pairs(acc2) =~= spec_info_acc_pairs(a).insert((k, v)));
        } else if k == "pop_call"@ {
            assert(spec_encode_opt_usize(spec_decode_opt_usize(v)->Some_0) == v);
            lemma_acc_insert_pop_call(a, spec_decode_opt_usize(v)->Some_0);
            assert(spec_info_acc_pairs(acc2) =~= spec_info_acc_pairs(a).insert((k, v)));
        } else if k == "pop"@ {
            assert(spec_encode_opt_usize(spec_decode_opt_usize(v)->Some_0) == v);
            lemma_acc_insert_pop(a, spec_decode_opt_usize(v)->Some_0);
            assert(spec_info_acc_pairs(acc2) =~= spec_info_acc_pairs(a).insert((k, v)));
        } else if k == "exec"@ {
            crate::value::lemma_value_round_trip_json(v);
            lemma_acc_insert_exec(a, crate::value::spec_decode_value(v)->Some_0);
            assert(spec_info_acc_pairs(acc2) =~= spec_info_acc_pairs(a).insert((k, v)));
        } else if k == "fork"@ {
            lemma_acc_insert_fork(a, spec_decode_bool(v)->Some_0);
            assert(spec_info_acc_pairs(acc2) =~= spec_info_acc_pairs(a).insert((k, v)));
        } else if k == "menu"@ {
            assert(spec_canonical_info_pair(pairs.last()));
            if v is Null {
                lemma_acc_insert_menu(a, None);
            } else {
                lemma_acc_insert_menu(a, Some(crate::options::spec_decode_options(v)->Some_0));
            }
            assert(spec_info_acc_pairs(acc2) =~= spec_info_acc_pairs(a).insert((k, v)));
        } else {
            assert(false);
        }
    }
}

/// Transition round trip, text side: an object that the exact schema
/// reads back re-serializes to the same pairs up to key order, provided
/// any options override it carries under `menu` is itself in serialized
/// form.
pub proof fn lemma_info_json_round_trip(j: JsonView)
    requires
        spec_decode_info(j) is Some,
        forall|n: int| 0 <= n < j->Obj_0.len() ==> spec_canonical_info_pair(#[trigger] j->Obj_0[n]),
    ensures
        j is Obj,
        spec_encode_info(spec_decode_info(j)->Some_0)->Obj_0.to_multiset() == j->Obj_0.to_multiset(),
{
    let pairs = j->Obj_0;
    let init = spec_info_acc_init();
    lemma_info_fold_pairs(pairs, init);
    let acc = spec_info_fold(pairs, init)->Some_0;
    assert(spec_info_acc_pairs(init) =~= Multiset::empty());
    assert(spec_info_acc_pairs(acc) =~= pairs.to_multiset());
    let i = spec_decode_info(j)->Some_0;
    let p1 = ("push_call"@, crate::value::spec_encode_value(i.push_call));
    let p2 = ("push"@, crate::value::spec_encode_value(i.push));
    let p3 = ("pop_call"@, spec_encode_opt_usize(i.pop_call));
    let p4 = ("pop"@, spec_encode_opt_usize(i.pop));
    let p5 = ("exec"@, crate::value::spec_encode_value(i.exec_cmd));
    let p6 = ("fork"@, JsonView::Bool(i.fork));
    let p7 = ("menu"@, match i.menu {
        Some(m) => crate::options::spec_encode_options(*m),
        None => JsonView::Null,
    });
    let enc = spec_encode_info(i)->Obj_0;
    let e0 = Seq::<(Seq<char>, JsonView)>::empty();
    let e1 = e0.push(p1);
    let e2 = e1.push(p2);
    let e3 = e2.push(p3);
    let e4 = e3.push(p4);
    let e5 = e4.push(p5);
    let e6 = e5.push(p6);
    let e7 = e6.push(p7);
    assert(enc =~= e7);
    e0.to_multiset_ensures();
    e1.to_multiset_ensures();
    e2.to_multiset_ensures();
    e3.to_multiset_ensures();
    e4.to_multiset_ensures();
    e5.to_multiset_ensures();
    e6.to_multiset_ensures();
    assert(e0.to_multiset() =~= Multiset::empty());
    assert(e1.to_multiset() =~= e0.to_multiset().insert(p1));
    assert(e2.to_multiset() =~= e1.to_multiset().insert(p2));
    assert(e3.to_multiset() =~= e2.to_multiset().insert(p3));
    assert(e4.to_multiset() =~= e3.to_multiset().insert(p4));
    assert(e5.to_multiset() =~= e4.to_multiset().insert(p5));
    assert(e6.to_multiset() =~= e5.to_multiset().insert(p6));
    assert(e7.to_multiset() =~= e6.to_multiset().insert(p7));
    assert(spec_info_acc_pairs(acc) =~= Multiset::<(Seq<char>, JsonView)>::empty()
        .insert(p1).insert(p2).insert(p3).insert(p4).insert(p5).insert(p6).insert(p7));
    assert(enc.to_multiset() =~= pairs.to_multiset());
}

/// Reads a transition from JSON5 text, as the host's transition variable
/// carries it.
pub fn info_from_json5(s: &str) -> (r: Option<Info>)
    ensures
        r matches Some(i) ==> (crate::json::json5_parsed(s@) matches Some(j)
            && spec_decode_info(j) == Some(i@)),
        r is None ==> (crate::json::json5_parsed(s@) is None
            || spec_decode_info(crate::json::json5_parsed(s@)->Some_0) is None),
{
    match crate::json::parse_json5(s) {
        Some(j) => decode_info(&j),
        None => None,
    }
}

/// Renders a transition as JSON5 text, as a row's `info` attribute and
/// the host's transition variable carry it.
pub fn info_to_json5(i: &Info) -> (r: Option<String>)
    ensures
        r matches Some(t) ==> crate::json::json5_text(spec_encode_info(i@)) == Some(t@),
        r is None ==> crate::json::json5_text(spec_encode_info(i@)) is None,
{
    let j = encode_info(i);
    crate::json::to_json5_text(&j)
}

/// Reads a state from JSON5 text, as the host's state variable carries
/// it.
pub fn data_from_json5(s: &str) -> (r: Option<Data>)
    ensures
        r matches Some(d) ==> (crate::json::json5_parsed(s@) matches Some(j)
            && spec_decode_data(j) == Some(d@)),
        r is None ==> (crate::json::json5_parsed(s@) is None
            || spec_decode_data(crate::json::json5_parsed(s@)->Some_0) is None),
{
    match crate::json::parse_json5(s) {
        Some(j) => decode_data(&j),
        None => None,
    }
}

/// Renders a state as JSON5 text, as the `data` option carries it.
pub fn data_to_json5(d: &Data) -> (r: Option<String>)
    ensures
        r matches Some(t) ==> crate::json::json5_text(spec_encode_data(d@)) == Some(t@),
        r is None ==> crate::json::json5_text(spec_encode_data(d@)) is None,
{
    let j = encode_data(d);
    crate::json::to_json5_text(&j)
}

} // verus!

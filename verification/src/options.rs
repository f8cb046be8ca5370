//! Host display and selection settings for one invocation.
//!
//! A submenu script's first output line decodes to a [`ModeOptions`];
//! a row's `menu` key may carry another one that is merged on top.

use vstd::prelude::*;

use crate::data::{Data, DataView, data_view, spec_data_default, spec_encode_data,
    spec_encode_info, spec_decode_string, spec_decode_bool, decode_string, decode_bool};
use crate::json::{Json, JsonView, json_view, json_pairs_view, json5_text, to_json5_text,
    lemma_json_pairs_view_len, lemma_json_pairs_view_index, str_eq};
use crate::numtext::{spec_dec_int, i64_to_decimal};

verus! {

/// The row markup format a script may ask for.
#[derive(Copy, Clone, Debug, PartialEq, Eq, Structural)]
pub enum Markup {
    Pango,
}

/// What the host should select after the rows are replaced.
#[derive(Copy, Clone, Debug, PartialEq, Eq, Structural)]
pub enum Selection {
    /// Keep the previously selected row.
    Keep,
    /// Select the row with this index.
    SetTo(i64),
}

/// Display and selection settings for one invocation, together with the
/// state to hand back to the host.
pub struct ModeOptions {
    /// Prompt text.
    pub prompt: Option<String>,
    /// Message text, for explanations and the like.
    pub message: Option<String>,
    /// Markup format of the rows.
    pub markup: Option<Markup>,
    /// Selection mode.
    pub selection: Option<Selection>,
    /// The state the next invocation restores.
    pub data: Data,
    /// Whether to select the only row without asking when there is
    /// exactly one.
    pub autoselect: bool,
}

/// The mathematical model of a [`ModeOptions`].
pub struct ModeOptionsView {
    pub prompt: Option<Seq<char>>,
    pub message: Option<Seq<char>>,
    pub markup: Option<Markup>,
    pub selection: Option<Selection>,
    pub data: DataView,
    pub autoselect: bool,
}

pub open spec fn mode_options_view(o: ModeOptions) -> ModeOptionsView
    decreases o,
{
    ModeOptionsView {
        prompt: match o.prompt {
            Some(s) => Some(s@),
            None => None,
        },
        message: match o.message {
            Some(s) => Some(s@),
            None => None,
        },
        markup: o.markup,
        selection: o.selection,
        data: data_view(o.data),
        autoselect: o.autoselect,
    }
}

impl View for ModeOptions {
    type V = ModeOptionsView;

    open spec fn view(&self) -> ModeOptionsView {
        mode_options_view(*self)
    }
}

impl DeepView for ModeOptions {
    type V = ModeOptionsView;

    open spec fn deep_view(&self) -> ModeOptionsView {
        mode_options_view(*self)
    }
}

/// The options a script gets when it states none: everything absent,
/// no autoselect.
pub open spec fn spec_options_default() -> ModeOptionsView {
    ModeOptionsView {
        prompt: None,
        message: None,
        markup: None,
        selection: None,
        data: spec_data_default(),
        autoselect: false,
    }
}

impl Default for ModeOptions {
    fn default() -> (r: Self)
        ensures
            r@ == spec_options_default(),
    {
        ModeOptions {
            prompt: None,
            message: None,
            markup: None,
            selection: None,
            data: Data::default(),
            autoselect: false,
        }
    }
}

/// The merge of `other` on top of `base`: every present field of `other`
/// overrides, `autoselect` is sticky, and of the carried state only the
/// fallback transition is taken.
pub open spec fn spec_merge(base: ModeOptionsView, other: ModeOptionsView) -> ModeOptionsView {
    ModeOptionsView {
        prompt: if other.prompt is Some { other.prompt } else { base.prompt },
        message: if other.message is Some { other.message } else { base.message },
        markup: if other.markup is Some { other.markup } else { base.markup },
        selection: if other.selection is Some { other.selection } else { base.selection },
        data: DataView {
            stack: base.data.stack,
            call_stack: base.data.call_stack,
            fallback: if other.data.fallback is Some { other.data.fallback } else { base.data.fallback },
        },
        autoselect: base.autoselect || other.autoselect,
    }
}

impl ModeOptions {
    /// A deep copy; [`ModeOptions`] is recursive, so this takes the place
    /// of a derived clone.
    pub fn duplicate(&self) -> (r: Self)
        ensures
            r@ == self@,
        decreases self,
    {
        ModeOptions {
            prompt: match &self.prompt {
                Some(s) => Some(s.clone()),
                None => None,
            },
            message: match &self.message {
                Some(s) => Some(s.clone()),
                None => None,
            },
            markup: self.markup,
            selection: self.selection,
            data: self.data.duplicate(),
            autoselect: self.autoselect,
        }
    }

    pub fn merge(&mut self, other: &ModeOptions)
        ensures
            final(self)@ == spec_merge(old(self)@, other@),
    {
        match &other.prompt {
            Some(prompt) => {
                self.prompt = Some(prompt.clone());
            },
            None => {},
        }
        match &other.message {
            Some(message) => {
                self.message = Some(message.clone());
            },
            None => {},
        }
        match other.markup {
            Some(markup) => {
                self.markup = Some(markup);
            },
            None => {},
        }
        match other.selection {
            Some(selection) => {
                self.selection = Some(selection);
            },
            None => {},
        }
        match &other.data.fallback {
            Some(fallback) => {
                self.data.fallback = Some(fallback.duplicate());
            },
            None => {},
        }
        if other.autoselect {
            self.autoselect = true;
        }
    }
}

/// The JSON shape a [`ModeOptions`] serializes to: each present field as
/// one key, `selection` as the string `keep` or the key `select`, the
/// fallback transition under `fallback`, and `autoselect` only when set.
pub open spec fn spec_encode_options(o: ModeOptionsView) -> JsonView
    decreases o,
{
    let s0 = Seq::<(Seq<char>, JsonView)>::empty();
    let s1 = if o.prompt is Some {
        s0.push(("prompt"@, JsonView::Str(o.prompt->Some_0)))
    } else {
        s0
    };
    let s2 = if o.message is Some {
        s1.push(("message"@, JsonView::Str(o.message->Some_0)))
    } else {
        s1
    };
    let s3 = if o.markup is Some {
        s2.push(("markup"@, JsonView::Str("pango"@)))
    } else {
        s2
    };
    let s4 = match o.selection {
        None => s3,
        Some(Selection::Keep) => s3.push(("selection"@, JsonView::Str("keep"@))),
        Some(Selection::SetTo(x)) => s3.push(("select"@, JsonView::Int(x as int))),
    };
    let s5 = match o.data.fallback {
        None => s4,
        Some(i) => s4.push(("fallback"@, spec_encode_info(i))),
    };
    let s6 = if o.autoselect {
        s5.push(("autoselect"@, JsonView::Bool(true)))
    } else {
        s5
    };
    JsonView::Obj(s6)
}

/// Appends one key-value pair, tracking the view of the pair list.
fn push_pair(pairs: &mut Vec<(String, Json)>, k: String, v: Json)
    ensures
        final(pairs)@ == old(pairs)@.push((k, v)),
        crate::json::json_pairs_view(final(pairs)@)
            == crate::json::json_pairs_view(old(pairs)@).push((k@, crate::json::json_view(v))),
{
    let ghost prev = pairs@;
    let ghost gk = k@;
    let ghost gv = crate::json::json_view(v);
    pairs.push((k, v));
    proof {
        crate::json::lemma_json_pairs_view_push(prev, pairs@.last());
        assert(pairs@ == prev.push(pairs@.last()));
    }
}

pub fn encode_options(o: &ModeOptions) -> (r: Json)
    ensures
        r@ == spec_encode_options(o@),
    decreases o,
{
    let mut pairs: Vec<(String, Json)> = Vec::new();
    match &o.prompt {
        Some(p) => {
            push_pair(&mut pairs, "prompt".to_owned(), Json::Str(p.clone()));
        },
        None => {},
    }
    match &o.message {
        Some(m) => {
            push_pair(&mut pairs, "message".to_owned(), Json::Str(m.clone()));
        },
        None => {},
    }
    match o.markup {
        Some(Markup::Pango) => {
            push_pair(&mut pairs, "markup".to_owned(), Json::Str("pango".to_owned()));
        },
        None => {},
    }
    match o.selection {
        None => {},
        Some(Selection::Keep) => {
            push_pair(&mut pairs, "selection".to_owned(), Json::Str("keep".to_owned()));
        },
        Some(Selection::SetTo(x)) => {
            push_pair(&mut pairs, "select".to_owned(), Json::Int(x as i128));
        },
    }
    match &o.data.fallback {
        None => {},
        Some(i) => {
            proof {
                assert(decreases_to!(*o => o.data));
                assert(decreases_to!(o.data => o.data.fallback));
            }
            let enc = crate::data::encode_info(i);
            push_pair(&mut pairs, "fallback".to_owned(), enc);
        },
    }
    if o.autoselect {
        push_pair(&mut pairs, "autoselect".to_owned(), Json::Bool(true));
    }
    proof {
        assert(crate::json::json_pairs_view(pairs@) =~= spec_encode_options(o@)->Obj_0);
    }
    Json::Obj(pairs)
}

/// The value of a `select`/`selection` key: null keeps the previous
/// selection; an index selects that row.
pub open spec fn spec_decode_selection(j: JsonView) -> Option<Selection> {
    match j {
        JsonView::Null => Some(Selection::Keep),
        JsonView::Int(n) => if i64::MIN <= n <= i64::MAX {
            Some(Selection::SetTo(n as i64))
        } else {
            None
        },
        _ => None,
    }
}

pub fn decode_selection(j: &Json) -> (r: Option<Selection>)
    ensures
        r == spec_decode_selection(j@),
{
    match j {
        Json::Null => Some(Selection::Keep),
        Json::Int(n) => if i64::MIN as i128 <= *n && *n <= i64::MAX as i128 {
            Some(Selection::SetTo(*n as i64))
        } else {
            None
        },
        _ => None,
    }
}

/// One key of the options schema applied to the options under assembly.
pub open spec fn spec_options_step(o: ModeOptionsView, k: Seq<char>, v: JsonView) -> Option<ModeOptionsView>
    decreases v, 1nat,
{
    if k == "prompt"@ {
        match spec_decode_string(v) {
            Some(s) => Some(ModeOptionsView { prompt: Some(s), ..o }),
            None => None,
        }
    } else if k == "message"@ {
        match spec_decode_string(v) {
            Some(s) => Some(ModeOptionsView { message: Some(s), ..o }),
            None => None,
        }
    } else if k == "markup"@ {
        match spec_decode_string(v) {
            Some(s) => if s == "pango"@ {
                Some(ModeOptionsView { markup: Some(Markup::Pango), ..o })
            } else {
                None
            },
            None => None,
        }
    } else if k == "fallback"@ {
        match crate::fallback_row::spec_decode_fallback_info(v) {
            Some(i) => Some(ModeOptionsView {
                data: DataView { fallback: Some(i), ..o.data },
                ..o
            }),
            None => None,
        }
    } else if k == "select"@ || k == "selection"@ {
        match spec_decode_selection(v) {
            Some(s) => Some(ModeOptionsView { selection: Some(s), ..o }),
            None => None,
        }
    } else if k == "autoselect"@ {
        match spec_decode_bool(v) {
            Some(b) => Some(ModeOptionsView { autoselect: b, ..o }),
            None => None,
        }
    } else {
        None
    }
}

pub open spec fn spec_options_fold(pairs: Seq<(Seq<char>, JsonView)>, o: ModeOptionsView) -> Option<ModeOptionsView>
    decreases pairs, 2nat,
{
    if pairs.len() == 0 {
        Some(o)
    } else {
        match spec_options_fold(pairs.drop_last(), o) {
            Some(o2) => spec_options_step(o2, pairs.last().0, pairs.last().1),
            None => None,
        }
    }
}

/// The options schema: an object with any subset of the option keys, in
/// any order, applied left to right over the defaults; a later key
/// overrides an earlier one.  Only an object is accepted.
pub open spec fn spec_decode_options(j: JsonView) -> Option<ModeOptionsView>
    decreases j, 0nat,
{
    match j {
        JsonView::Obj(pairs) => spec_options_fold(pairs, spec_options_default()),
        _ => None,
    }
}

proof fn lemma_options_fold_prefix_none(pairs: Seq<(Seq<char>, JsonView)>, i: int, acc: ModeOptionsView)
    requires
        0 <= i <= pairs.len(),
        spec_options_fold(pairs.subrange(0, i), acc) is None,
    ensures
        spec_options_fold(pairs, acc) is None,
    decreases pairs,
{
    if i == pairs.len() {
        assert(pairs.subrange(0, i) =~= pairs);
    } else {
        assert(pairs.drop_last().subrange(0, i) =~= pairs.subrange(0, i));
        lemma_options_fold_prefix_none(pairs.drop_last(), i, acc);
    }
}

/// Decodes an options line.
#[verifier::loop_isolation(false)]
pub fn decode_options(j: &Json) -> (r: Option<ModeOptions>)
    ensures
        r matches Some(o) ==> spec_decode_options(j@) == Some(o@),
        r is None ==> spec_decode_options(j@) is None,
    decreases j, 0nat,
{
    match j {
        Json::Obj(pairs) => {
            let mut ret = ModeOptions::default();
            let mut i: usize = 0;
            proof {
                lemma_json_pairs_view_len(pairs@);
            }
            while i < pairs.len()
                invariant
                    i <= pairs.len(),
                    spec_options_fold(json_pairs_view(pairs@).subrange(0, i as int), spec_options_default())
                        == Some(ret@),
                decreases pairs.len() - i,
            {
                proof {
                    lemma_json_pairs_view_index(pairs@, i as int);
                    assert(decreases_to!(*j => j->Obj_0));
                    assert(decreases_to!(*pairs => pairs@));
                    assert(decreases_to!(pairs@ => pairs@[i as int]));
                    assert(decreases_to!(pairs@[i as int] => pairs@[i as int].1));
                }
                let ghost gpairs = json_pairs_view(pairs@);
                let ghost pre = gpairs.subrange(0, i as int);
                let ghost post = gpairs.subrange(0, i + 1int);
                proof {
                    assert(post.drop_last() =~= pre);
                    assert(post.last() == (pairs@[i as int].0@, json_view(pairs@[i as int].1)));
                }
                let key = &pairs[i].0;
                let val = &pairs[i].1;
                if str_eq(key.as_str(), "prompt") {
                    match decode_string(val) {
                        Some(s) => {
                            ret.prompt = Some(s);
                        },
                        None => {
                            proof {
                                assert(spec_options_step(ret@, post.last().0, post.last().1) is None);
                                assert(spec_options_fold(post, spec_options_default()) is None);
                                lemma_options_fold_prefix_none(gpairs, i + 1int, spec_options_default());
                            }
                            return None;
                        },
                    }
                } else if str_eq(key.as_str(), "message") {
                    match decode_string(val) {
                        Some(s) => {
                            ret.message = Some(s);
                        },
                        None => {
                            proof {
                                lemma_options_fold_prefix_none(gpairs, i + 1int, spec_options_default());
                            }
                            return None;
                        },
                    }
                } else if str_eq(key.as_str(), "markup") {
                    let bad = match decode_string(val) {
                        Some(s) => {
                            if str_eq(s.as_str(), "pango") {
                                ret.markup = Some(Markup::Pango);
                                false
                            } else {
                                true
                            }
                        },
                        None => true,
                    };
                    if bad {
                        proof {
                            lemma_options_fold_prefix_none(gpairs, i + 1int, spec_options_default());
                        }
                        return None;
                    }
                } else if str_eq(key.as_str(), "fallback") {
                    match crate::fallback_row::decode_fallback_info(val) {
                        Some(f) => {
                            ret.data.fallback = Some(f.0);
                        },
                        None => {
                            proof {
                                lemma_options_fold_prefix_none(gpairs, i + 1int, spec_options_default());
                            }
                            return None;
                        },
                    }
                } else if str_eq(key.as_str(), "select") || str_eq(key.as_str(), "selection") {
                    match decode_selection(val) {
                        Some(s) => {
                            ret.selection = Some(s);
                        },
                        None => {
                            proof {
                                lemma_options_fold_prefix_none(gpairs, i + 1int, spec_options_default());
                            }
                            return None;
                        },
                    }
                } else if str_eq(key.as_str(), "autoselect") {
                    match decode_bool(val) {
                        Some(b) => {
                            ret.autoselect = b;
                        },
                        None => {
                            proof {
                                lemma_options_fold_prefix_none(gpairs, i + 1int, spec_options_default());
                            }
                            return None;
                        },
                    }
                } else {
                    proof {
                        lemma_options_fold_prefix_none(gpairs, i + 1int, spec_options_default());
                    }
                    return None;
                }
                i = i + 1;
            }
            proof {
                assert(json_pairs_view(pairs@).subrange(0, pairs@.len() as int) =~= json_pairs_view(pairs@));
            }
            Some(ret)
        },
        _ => None,
    }
}

/// The `no-custom` option: announced exactly when no fallback transition
/// is set, so the host refuses freeform input in that mode.
pub open spec fn spec_no_custom_part(o: ModeOptionsView) -> Seq<char> {
    if o.data.fallback is None {
        "\x00no-custom\x1Ftrue\x0b"@
    } else {
        Seq::empty()
    }
}

/// The option block: each present setting as a framed property, then the
/// carried state as JSON5 under `data`.
pub open spec fn spec_options_wire(o: ModeOptionsView, dt: Seq<char>) -> Seq<char> {
    (match o.prompt {
        Some(p) => "\x00prompt\x1F"@ + p + "\x0b"@,
        None => Seq::empty(),
    })
    + (match o.message {
        Some(m) => "\x00message\x1F"@ + m + "\x0b"@,
        None => Seq::empty(),
    })
    + (if o.markup is Some {
        "\x00markup-rows\x1Ftrue\x0b"@
    } else {
        Seq::empty()
    })
    + spec_no_custom_part(o)
    + (match o.selection {
        None => Seq::empty(),
        Some(Selection::Keep) => "\x00keep-selection\x1Ftrue\x0b"@,
        Some(Selection::SetTo(x)) =>
            "\x00keep-selection\x1Ftrue\x0b"@ + "\x00new-selection\x1F"@ + spec_dec_int(x as int) + "\x0b"@,
    })
    + "\x00data\x1F"@ + dt + "\x0b"@
}

/// The encoded option block, or `None` if the carried state does not
/// serialize (no value built by this crate fails to).
pub open spec fn spec_options_to_rofi(o: ModeOptionsView) -> Option<Seq<char>> {
    match json5_text(spec_encode_data(o.data)) {
        Some(dt) => Some(spec_options_wire(o, dt)),
        None => None,
    }
}

/// The `no-custom` property stands in the option block exactly when the
/// options carry no fallback transition.
pub proof fn lemma_no_custom_iff_no_fallback(o: ModeOptionsView)
    ensures
        spec_no_custom_part(o).len() > 0 <==> o.data.fallback is None,
        o.data.fallback is None ==> spec_no_custom_part(o) == "\x00no-custom\x1Ftrue\x0b"@,
        o.data.fallback is Some ==> spec_no_custom_part(o) == Seq::<char>::empty(),
{
    reveal_strlit("\x00no-custom\x1Ftrue\x0b");
}

impl ModeOptions {
    /// Encodes the option block for the host.
    #[verifier::rlimit(60)]
    pub fn to_rofi(&self) -> (r: Option<String>)
        ensures
            r matches Some(s) ==> spec_options_to_rofi(self@) == Some(s@),
            r is None ==> spec_options_to_rofi(self@) is None,
    {
        let dj = crate::data::encode_data(&self.data);
        let dt = match to_json5_text(&dj) {
            Some(t) => t,
            None => {
                return None;
            },
        };
        let mut ret = String::new();
        match &self.prompt {
            Some(p) => {
                ret.append("\x00prompt\x1F");
                ret.append(p.as_str());
                ret.append("\x0b");
            },
            None => {},
        }
        match &self.message {
            Some(m) => {
                ret.append("\x00message\x1F");
                ret.append(m.as_str());
                ret.append("\x0b");
            },
            None => {},
        }
        match self.markup {
            Some(Markup::Pango) => {
                ret.append("\x00markup-rows\x1Ftrue\x0b");
            },
            None => {},
        }
        if self.data.fallback.is_none() {
            ret.append("\x00no-custom\x1Ftrue\x0b");
        }
        match self.selection {
            None => {},
            Some(Selection::Keep) => {
                ret.append("\x00keep-selection\x1Ftrue\x0b");
            },
            Some(Selection::SetTo(x)) => {
                ret.append("\x00keep-selection\x1Ftrue\x0b");
                ret.append("\x00new-selection\x1F");
                let digits = i64_to_decimal(x);
                ret.append(digits.as_str());
                ret.append("\x0b");
            },
        }
        ret.append("\x00data\x1F");
        ret.append(dt.as_str());
        ret.append("\x0b");
        proof {
            assert(ret@ =~= spec_options_wire(self@, dt@));
        }
        Some(ret)
    }
}

/// The options whose serialization the options schema reads back exactly:
/// the carried stacks empty (they are never serialized), no fallback
/// transition (its serialization uses the exact schema, which the options
/// schema does not read), and no kept selection (it serializes as a word
/// that only the host reads).
pub open spec fn spec_options_clean(o: ModeOptionsView) -> bool {
    &&& o.data.stack.len() == 0
    &&& o.data.call_stack.len() == 0
    &&& o.data.fallback is None
    &&& !(o.selection == Some(Selection::Keep))
}

proof fn lemma_options_fold_push(s: Seq<(Seq<char>, JsonView)>, p: (Seq<char>, JsonView), init: ModeOptionsView)
    ensures
        spec_options_fold(s.push(p), init) == (match spec_options_fold(s, init) {
            Some(o2) => spec_options_step(o2, p.0, p.1),
            None => None,
        }),
{
    assert(s.push(p).drop_last() =~= s);
    assert(s.push(p).last() == p);
}

/// Options round trip: a clean options record decodes back from its own
/// serialization.
pub proof fn lemma_options_round_trip(o: ModeOptionsView)
    requires
        spec_options_clean(o),
    ensures
        spec_decode_options(spec_encode_options(o)) == Some(o),
{
    reveal_strlit("prompt");
    reveal_strlit("message");
    reveal_strlit("markup");
    reveal_strlit("pango");
    reveal_strlit("fallback");
    reveal_strlit("select");
    reveal_strlit("selection");
    reveal_strlit("autoselect");
    assert("message"@ !~= "prompt"@);
    assert("message"@ != "prompt"@);
    assert("markup"@[0] != "prompt"@[0]);
    assert("markup"@ != "prompt"@);
    assert("markup"@ !~= "message"@);
    assert("markup"@ != "message"@);
    assert("select"@[0] != "prompt"@[0]);
    assert("select"@ != "prompt"@);
    assert("select"@ !~= "message"@);
    assert("select"@ != "message"@);
    assert("select"@[0] != "markup"@[0]);
    assert("select"@ != "markup"@);
    assert("select"@ !~= "fallback"@);
    assert("select"@ != "fallback"@);
    assert("autoselect"@ !~= "prompt"@);
    assert("autoselect"@ != "prompt"@);
    assert("autoselect"@ !~= "message"@);
    assert("autoselect"@ != "message"@);
    assert("autoselect"@ !~= "markup"@);
    assert("autoselect"@ != "markup"@);
    assert("autoselect"@ !~= "fallback"@);
    assert("autoselect"@ != "fallback"@);
    assert("autoselect"@ !~= "select"@);
    assert("autoselect"@ != "select"@);
    assert("autoselect"@ !~= "selection"@);
    assert("autoselect"@ != "selection"@);
    let e0 = spec_options_default();
    let s0 = Seq::<(Seq<char>, JsonView)>::empty();
    let s1 = if o.prompt is Some {
        s0.push(("prompt"@, JsonView::Str(o.prompt->Some_0)))
    } else {
        s0
    };
    let e1 = if o.prompt is Some {
        ModeOptionsView { prompt: o.prompt, ..e0 }
    } else {
        e0
    };
    if o.prompt is Some {
        lemma_options_fold_push(s0, ("prompt"@, JsonView::Str(o.prompt->Some_0)), e0);
    }
    assert(spec_options_fold(s1, e0) == Some(e1));
    let s2 = if o.message is Some {
        s1.push(("message"@, JsonView::Str(o.message->Some_0)))
    } else {
        s1
    };
    let e2 = if o.message is Some {
        ModeOptionsView { message: o.message, ..e1 }
    } else {
        e1
    };
    if o.message is Some {
        lemma_options_fold_push(s1, ("message"@, JsonView::Str(o.message->Some_0)), e0);
        assert(spec_options_step(e1, "message"@, JsonView::Str(o.message->Some_0)) == Some(e2));
    }
    assert(spec_options_fold(s2, e0) == Some(e2));
    let s3 = if o.markup is Some {
        s2.push(("markup"@, JsonView::Str("pango"@)))
    } else {
        s2
    };
    let e3 = if o.markup is Some {
        ModeOptionsView { markup: Some(Markup::Pango), ..e2 }
    } else {
        e2
    };
    if o.markup is Some {
        lemma_options_fold_push(s2, ("markup"@, JsonView::Str("pango"@)), e0);
        assert(spec_options_step(e2, "markup"@, JsonView::Str("pango"@)) == Some(e3));
    }
    assert(spec_options_fold(s3, e0) == Some(e3));
    let s4 = match o.selection {
        None => s3,
        Some(Selection::Keep) => s3.push(("selection"@, JsonView::Str("keep"@))),
        Some(Selection::SetTo(x)) => s3.push(("select"@, JsonView::Int(x as int))),
    };
    let e4 = match o.selection {
        None => e3,
        Some(Selection::Keep) => e3,
        Some(Selection::SetTo(x)) => ModeOptionsView { selection: Some(Selection::SetTo(x)), ..e3 },
    };
    match o.selection {
        None => {},
        Some(Selection::Keep) => {},
        Some(Selection::SetTo(x)) => {
            lemma_options_fold_push(s3, ("select"@, JsonView::Int(x as int)), e0);
            assert(spec_options_step(e3, "select"@, JsonView::Int(x as int)) == Some(e4));
        },
    }
    assert(spec_options_fold(s4, e0) == Some(e4));
    let s5 = s4;
    let e5 = e4;
    let s6 = if o.autoselect {
        s5.push(("autoselect"@, JsonView::Bool(true)))
    } else {
        s5
    };
    let e6 = if o.autoselect {
        ModeOptionsView { autoselect: true, ..e5 }
    } else {
        e5
    };
    if o.autoselect {
        lemma_options_fold_push(s5, ("autoselect"@, JsonView::Bool(true)), e0);
        assert(spec_options_step(e5, "autoselect"@, JsonView::Bool(true)) == Some(e6));
    }
    assert(spec_options_fold(s6, e0) == Some(e6));
    assert(spec_encode_options(o)->Obj_0 == s6);
    assert(e6.data.stack =~= o.data.stack);
    assert(e6.data.call_stack =~= o.data.call_stack);
    assert(e6.prompt == o.prompt);
    assert(e6.message == o.message);
    assert(e6.markup == o.markup);
    assert(e6.selection == o.selection);
    assert(e6.autoselect == o.autoselect);
    assert(e6 == o);
}

/// Reads an options line from JSON5 text.
pub fn options_from_json5(s: &str) -> (r: Option<ModeOptions>)
    ensures
        r matches Some(o) ==> (crate::json::json5_parsed(s@) matches Some(j)
            && spec_decode_options(j) == Some(o@)),
        r is None ==> (crate::json::json5_parsed(s@) is None
            || spec_decode_options(crate::json::json5_parsed(s@)->Some_0) is None),
{
    match crate::json::parse_json5(s) {
        Some(j) => decode_options(&j),
        None => None,
    }
}

/// Renders an options record as JSON5 text.
pub fn options_to_json5(o: &ModeOptions) -> (r: Option<String>)
    ensures
        r matches Some(t) ==> crate::json::json5_text(spec_encode_options(o@)) == Some(t@),
        r is None ==> crate::json::json5_text(spec_encode_options(o@)) is None,
{
    let j = encode_options(o);
    crate::json::to_json5_text(&j)
}

} // verus!

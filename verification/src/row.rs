//! One menu line: its texts, its flags, and the transition it carries.
//!
//! A row is written either as a bare string (just the text) or as an
//! object mixing the row keys with the transition keys of the alias
//! schema.  It encodes to the host's framed row-property protocol: the
//! text, a NUL, then `name US value US` pairs with the final separator
//! stripped.

use vstd::prelude::*;

use crate::data::{Info, InfoView, info_view, spec_info_default, decode_bool, decode_string,
    spec_decode_string, spec_decode_bool, spec_encode_info, encode_info};
use crate::fallback_row::{spec_is_info_key, spec_apply_info_key, apply_info_key, KeyOutcome};
use crate::json::{Json, JsonView, json_view, json_pairs_view, json5_text, to_json5_text,
    lemma_json_pairs_view_len, lemma_json_pairs_view_index, str_eq};

verus! {

/// One menu line.
pub struct Row {
    /// The visible text; a row with empty text is suppressed.
    pub text: String,
    /// An icon name, shown when non-empty.
    pub icon: String,
    /// Search metadata, attached when non-empty.
    pub meta: String,
    /// Whether the row can be selected.
    pub selectable: bool,
    /// Whether the host should mark the row urgent.
    pub urgent: bool,
    /// Whether the host should mark the row active.
    pub active: bool,
    /// The transition applied when the row is chosen.
    pub info: Info,
}

/// The mathematical model of a [`Row`].
pub struct RowView {
    pub text: Seq<char>,
    pub icon: Seq<char>,
    pub meta: Seq<char>,
    pub selectable: bool,
    pub urgent: bool,
    pub active: bool,
    pub info: InfoView,
}

pub open spec fn row_view(r: Row) -> RowView {
    RowView {
        text: r.text@,
        icon: r.icon@,
        meta: r.meta@,
        selectable: r.selectable,
        urgent: r.urgent,
        active: r.active,
        info: info_view(r.info),
    }
}

impl View for Row {
    type V = RowView;

    open spec fn view(&self) -> RowView {
        row_view(*self)
    }
}

/// A bare row: empty texts, selectable, no marks, the default transition.
pub open spec fn spec_row_default() -> RowView {
    RowView {
        text: Seq::empty(),
        icon: Seq::empty(),
        meta: Seq::empty(),
        selectable: true,
        urgent: false,
        active: false,
        info: spec_info_default(),
    }
}

impl Default for Row {
    fn default() -> (r: Self)
        ensures
            r@ == spec_row_default(),
    {
        Row {
            text: String::new(),
            icon: String::new(),
            meta: String::new(),
            selectable: true,
            info: Info::default(),
            urgent: false,
            active: false,
        }
    }
}

/// One key of a row object: a row key sets the named field; a transition
/// key edits the row's transition; anything else fails.
pub open spec fn spec_row_step(r: RowView, k: Seq<char>, v: JsonView) -> Option<RowView>
    decreases v, 2nat,
{
    if k == "text"@ {
        match spec_decode_string(v) {
            Some(s) => Some(RowView { text: s, ..r }),
            None => None,
        }
    } else if k == "icon"@ {
        match spec_decode_string(v) {
            Some(s) => Some(RowView { icon: s, ..r }),
            None => None,
        }
    } else if k == "meta"@ {
        match spec_decode_string(v) {
            Some(s) => Some(RowView { meta: s, ..r }),
            None => None,
        }
    } else if k == "selectable"@ {
        match spec_decode_bool(v) {
            Some(b) => Some(RowView { selectable: b, ..r }),
            None => None,
        }
    } else if k == "urgent"@ {
        match spec_decode_bool(v) {
            Some(b) => Some(RowView { urgent: b, ..r }),
            None => None,
        }
    } else if k == "active"@ {
        match spec_decode_bool(v) {
            Some(b) => Some(RowView { active: b, ..r }),
            None => None,
        }
    } else if spec_is_info_key(k) {
        match spec_apply_info_key(r.info, k, v) {
            Some(i) => Some(RowView { info: i, ..r }),
            None => None,
        }
    } else {
        None
    }
}

pub open spec fn spec_row_fold(pairs: Seq<(Seq<char>, JsonView)>, r: RowView) -> Option<RowView>
    decreases pairs, 3nat,
{
    if pairs.len() == 0 {
        Some(r)
    } else {
        match spec_row_fold(pairs.drop_last(), r) {
            Some(r2) => spec_row_step(r2, pairs.last().0, pairs.last().1),
            None => None,
        }
    }
}

/// The row grammar: a bare string is the text with everything else at
/// its default; an object applies its keys left to right over the
/// default row.
pub open spec fn spec_decode_row(j: JsonView) -> Option<RowView>
    decreases j, 0nat,
{
    match j {
        JsonView::Str(s) => Some(RowView { text: s, ..spec_row_default() }),
        JsonView::Obj(pairs) => spec_row_fold(pairs, spec_row_default()),
        _ => None,
    }
}

proof fn lemma_row_fold_prefix_none(pairs: Seq<(Seq<char>, JsonView)>, i: int, acc: RowView)
    requires
        0 <= i <= pairs.len(),
        spec_row_fold(pairs.subrange(0, i), acc) is None,
    ensures
        spec_row_fold(pairs, acc) is None,
    decreases pairs,
{
    if i == pairs.len() {
        assert(pairs.subrange(0, i) =~= pairs);
    } else {
        assert(pairs.drop_last().subrange(0, i) =~= pairs.subrange(0, i));
        lemma_row_fold_prefix_none(pairs.drop_last(), i, acc);
    }
}

/// Decodes one row line.
#[verifier::loop_isolation(false)]
pub fn decode_row(j: &Json) -> (r: Option<Row>)
    ensures
        r matches Some(row) ==> spec_decode_row(j@) == Some(row@),
        r is None ==> spec_decode_row(j@) is None,
{
    match j {
        Json::Str(s) => {
            let mut row = Row::default();
            row.text = s.clone();
            Some(row)
        },
        Json::Obj(pairs) => {
            let mut row = Row::default();
            let mut i: usize = 0;
            proof {
                lemma_json_pairs_view_len(pairs@);
            }
            while i < pairs.len()
                invariant
                    i <= pairs.len(),
                    spec_row_fold(json_pairs_view(pairs@).subrange(0, i as int), spec_row_default())
                        == Some(row@),
                decreases pairs.len() - i,
            {
                proof {
                    lemma_json_pairs_view_index(pairs@, i as int);
                }
                let ghost gpairs = json_pairs_view(pairs@);
                let ghost pre = gpairs.subrange(0, i as int);
                let ghost post = gpairs.subrange(0, i + 1int);
                proof {
                    assert(post.drop_last() =~= pre);
                    assert(post.last() == (pairs@[i as int].0@, json_view(pairs@[i as int].1)));
                }
                let key = &pairs[i].0;
                let val = &pairs[i].1;
                if str_eq(key.as_str(), "text") {
                    match decode_string(val) {
                        Some(s) => {
                            row.text = s;
                        },
                        None => {
                            proof {
                                assert(spec_row_step(row@, post.last().0, post.last().1) is None);
                                assert(spec_row_fold(post, spec_row_default()) is None);
                                lemma_row_fold_prefix_none(gpairs, i + 1int, spec_row_default());
                            }
                            return None;
                        },
                    }
                } else if str_eq(key.as_str(), "icon") {
                    match decode_string(val) {
                        Some(s) => {
                            row.icon = s;
                        },
                        None => {
                            proof {
                                assert(spec_row_step(row@, post.last().0, post.last().1) is None);
                                assert(spec_row_fold(post, spec_row_default()) is None);
                                lemma_row_fold_prefix_none(gpairs, i + 1int, spec_row_default());
                            }
                            return None;
                        },
                    }
                } else if str_eq(key.as_str(), "meta") {
                    match decode_string(val) {
                        Some(s) => {
                            row.meta = s;
                        },
                        None => {
                            proof {
                                assert(spec_row_step(row@, post.last().0, post.last().1) is None);
                                assert(spec_row_fold(post, spec_row_default()) is None);
                                lemma_row_fold_prefix_none(gpairs, i + 1int, spec_row_default());
                            }
                            return None;
                        },
                    }
                } else if str_eq(key.as_str(), "selectable") {
                    match decode_bool(val) {
                        Some(b) => {
                            row.selectable = b;
                        },
                        None => {
                            proof {
                                assert(spec_row_step(row@, post.last().0, post.last().1) is None);
                                assert(spec_row_fold(post, spec_row_default()) is None);
                                lemma_row_fold_prefix_none(gpairs, i + 1int, spec_row_default());
                            }
                            return None;
                        },
                    }
                } else if str_eq(key.as_str(), "urgent") {
                    match decode_bool(val) {
                        Some(b) => {
                            row.urgent = b;
                        },
                        None => {
                            proof {
                                assert(spec_row_step(row@, post.last().0, post.last().1) is None);
                                assert(spec_row_fold(post, spec_row_default()) is None);
                                lemma_row_fold_prefix_none(gpairs, i + 1int, spec_row_default());
                            }
                            return None;
                        },
                    }
                } else if str_eq(key.as_str(), "active") {
                    match decode_bool(val) {
                        Some(b) => {
                            row.active = b;
                        },
                        None => {
                            proof {
                                assert(spec_row_step(row@, post.last().0, post.last().1) is None);
                                assert(spec_row_fold(post, spec_row_default()) is None);
                                lemma_row_fold_prefix_none(gpairs, i + 1int, spec_row_default());
                            }
                            return None;
                        },
                    }
                } else {
                    match apply_info_key(&mut row.info, key.as_str(), val) {
                        KeyOutcome::Applied => {},
                        KeyOutcome::NotInfoKey => {
                            proof {
                                assert(spec_row_step(row@, post.last().0, post.last().1) is None);
                                assert(spec_row_fold(post, spec_row_default()) is None);
                                lemma_row_fold_prefix_none(gpairs, i + 1int, spec_row_default());
                            }
                            return None;
                        },
                        KeyOutcome::BadValue => {
                            proof {
                                assert(spec_row_step(row@, post.last().0, post.last().1) is None);
                                assert(spec_row_fold(post, spec_row_default()) is None);
                                lemma_row_fold_prefix_none(gpairs, i + 1int, spec_row_default());
                            }
                            return None;
                        },
                    }
                }
                i = i + 1;
            }
            proof {
                assert(json_pairs_view(pairs@).subrange(0, pairs@.len() as int) =~= json_pairs_view(pairs@));
            }
            Some(row)
        },
        _ => None,
    }
}

/// The row's attribute block before the final separator is stripped:
/// the text, a NUL, then each present attribute as `name US value US`.
pub open spec fn spec_row_wire_full(r: RowView, info_text: Seq<char>) -> Seq<char> {
    r.text + "\x00"@
        + (if r.icon.len() > 0 { "icon\x1F"@ + r.icon + "\x1F"@ } else { Seq::empty() })
        + (if r.meta.len() > 0 { "meta\x1F"@ + r.meta + "\x1F"@ } else { Seq::empty() })
        + (if !r.selectable { "nonselectable\x1Ftrue\x1F"@ } else { Seq::empty() })
        + "info\x1F"@ + info_text + "\x1F"@
        + (if r.urgent { "urgent\x1Ftrue\x1F"@ } else { Seq::empty() })
        + (if r.active { "active\x1Ftrue\x1F"@ } else { Seq::empty() })
}

/// The encoded row: nothing for an empty text, else the attribute block
/// with its trailing separator dropped.  The transition rides along as
/// JSON5 under the `info` attribute.
pub open spec fn spec_row_to_rofi(r: RowView) -> Option<Seq<char>> {
    if r.text.len() == 0 {
        None
    } else {
        match json5_text(spec_encode_info(r.info)) {
            Some(it) => Some(spec_row_wire_full(r, it).drop_last()),
            None => None,
        }
    }
}

impl Row {
    /// The row's transition as JSON5 text; `None` only if serialization
    /// fails, which no value built by this crate does.
    pub fn info(&self) -> (r: Option<String>)
        ensures
            r matches Some(s) ==> json5_text(spec_encode_info(self@.info)) == Some(s@),
            r is None ==> json5_text(spec_encode_info(self@.info)) is None,
    {
        let j = encode_info(&self.info);
        to_json5_text(&j)
    }

    /// Encodes the row for the host, or `None` for a suppressed row.
    #[verifier::rlimit(60)]
    pub fn to_rofi(&self) -> (r: Option<String>)
        ensures
            r matches Some(s) ==> spec_row_to_rofi(self@) == Some(s@),
            r is None ==> spec_row_to_rofi(self@) is None,
            self@.text.len() == 0 ==> r is None,
    {
        if self.text.as_str().is_empty() {
            return None;
        }
        let info_text = match self.info() {
            Some(t) => t,
            None => {
                return None;
            },
        };
        let mut ret = self.text.clone();
        ret.append("\x00");
        if !self.icon.as_str().is_empty() {
            ret.append("icon\x1F");
            ret.append(self.icon.as_str());
            ret.append("\x1F");
        }
        if !self.meta.as_str().is_empty() {
            ret.append("meta\x1F");
            ret.append(self.meta.as_str());
            ret.append("\x1F");
        }
        if !self.selectable {
            ret.append("nonselectable\x1Ftrue\x1F");
        }
        ret.append("info\x1F");
        ret.append(info_text.as_str());
        ret.append("\x1F");
        if self.urgent {
            ret.append("urgent\x1Ftrue\x1F");
        }
        if self.active {
            ret.append("active\x1Ftrue\x1F");
        }
        proof {
            assert(ret@ =~= spec_row_wire_full(self@, info_text@));
            reveal_strlit("\x1F");
            assert(ret@.len() > 0);
        }
        let n = ret.as_str().unicode_len();
        let out = ret.as_str().substring_char(0, n - 1).to_owned();
        proof {
            assert(out@ =~= spec_row_wire_full(self@, info_text@).drop_last());
        }
        Some(out)
    }
}

/// Reads one row line from JSON5 text.
pub fn row_from_json5(s: &str) -> (r: Option<Row>)
    ensures
        r matches Some(row) ==> (crate::json::json5_parsed(s@) matches Some(j)
            && spec_decode_row(j) == Some(row@)),
        r is None ==> (crate::json::json5_parsed(s@) is None
            || spec_decode_row(crate::json::json5_parsed(s@)->Some_0) is None),
{
    match crate::json::parse_json5(s) {
        Some(j) => decode_row(&j),
        None => None,
    }
}

} // verus!

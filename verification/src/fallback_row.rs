//! The transition-key grammar: the row-level way of writing an [`Info`].
//!
//! A row object and an options `fallback` object both carry a transition
//! through the aliased keys `push`, `pop`, `jump`, `goto`, `return`,
//! `exec`, `fork` and `menu`, applied in the order they appear, starting
//! from the default transition.  `goto` first raises a present pop count
//! by one and then sets the call-stack push, so that it names a sibling
//! rather than a child of the current script.

use vstd::prelude::*;

use crate::data::{Info, InfoView, spec_info_default, spec_decode_opt_usize, spec_decode_bool,
    decode_opt_usize, decode_bool};
use crate::json::{Json, JsonView, json_view, json_pairs_view, lemma_json_pairs_view_len,
    lemma_json_pairs_view_index, str_eq};
use crate::value::{spec_decode_value, decode_value};

verus! {

/// A transition parsed from an options line's `fallback` value.
pub struct FallbackRow(pub Info);

/// Whether a key is one of the transition keys.
pub open spec fn spec_is_info_key(k: Seq<char>) -> bool {
    ||| k == "push"@
    ||| k == "pop"@
    ||| k == "jump"@
    ||| k == "goto"@
    ||| k == "return"@
    ||| k == "exec"@
    ||| k == "fork"@
    ||| k == "menu"@
}

/// A present pop count raised by one, as `goto` does; the count stops at
/// the largest representable value rather than wrapping.
pub open spec fn spec_goto_bump(p: Option<usize>) -> Option<usize> {
    match p {
        Some(n) => if n < usize::MAX {
            Some((n + 1) as usize)
        } else {
            Some(n)
        },
        None => None,
    }
}

/// One transition key applied to a transition under assembly.
pub open spec fn spec_apply_info_key(i: InfoView, k: Seq<char>, v: JsonView) -> Option<InfoView>
    decreases v, 1nat,
{
    if k == "push"@ {
        match spec_decode_value(v) {
            Some(t) => Some(InfoView { push: t, ..i }),
            None => None,
        }
    } else if k == "pop"@ {
        match spec_decode_opt_usize(v) {
            Some(x) => Some(InfoView { pop: x, ..i }),
            None => None,
        }
    } else if k == "jump"@ {
        match spec_decode_value(v) {
            Some(t) => Some(InfoView { push_call: t, ..i }),
            None => None,
        }
    } else if k == "goto"@ {
        match spec_decode_value(v) {
            Some(t) => Some(InfoView { pop_call: spec_goto_bump(i.pop_call), push_call: t, ..i }),
            None => None,
        }
    } else if k == "return"@ {
        match spec_decode_opt_usize(v) {
            Some(x) => Some(InfoView { pop_call: x, ..i }),
            None => None,
        }
    } else if k == "exec"@ {
        match spec_decode_value(v) {
            Some(t) => Some(InfoView { exec_cmd: t, ..i }),
            None => None,
        }
    } else if k == "fork"@ {
        match spec_decode_bool(v) {
            Some(b) => Some(InfoView { fork: b, ..i }),
            None => None,
        }
    } else if k == "menu"@ {
        match crate::options::spec_decode_options(v) {
            Some(m) => Some(InfoView { menu: Some(Box::new(m)), ..i }),
            None => None,
        }
    } else {
        None
    }
}

pub open spec fn spec_fallback_fold(pairs: Seq<(Seq<char>, JsonView)>, i: InfoView) -> Option<InfoView>
    decreases pairs, 2nat,
{
    if pairs.len() == 0 {
        Some(i)
    } else {
        match spec_fallback_fold(pairs.drop_last(), i) {
            Some(i2) => if spec_is_info_key(pairs.last().0) {
                spec_apply_info_key(i2, pairs.last().0, pairs.last().1)
            } else {
                None
            },
            None => None,
        }
    }
}

/// The transition an object denotes under the alias schema: any subset of
/// the transition keys, in any order, applied left to right over the
/// default transition.  Only an object is accepted.
pub open spec fn spec_decode_fallback_info(j: JsonView) -> Option<InfoView>
    decreases j, 0nat,
{
    match j {
        JsonView::Obj(pairs) => spec_fallback_fold(pairs, spec_info_default()),
        _ => None,
    }
}

/// What [`apply_info_key`] did with a key.
pub enum KeyOutcome {
    /// The key was a transition key and its value was stored.
    Applied,
    /// The key is not a transition key; the transition is unchanged.
    NotInfoKey,
    /// The key is a transition key but its value has the wrong shape;
    /// the transition is unchanged.
    BadValue,
}

/// Applies one key of the alias schema to a transition under assembly.
pub fn apply_info_key(info: &mut Info, key: &str, value: &Json) -> (r: KeyOutcome)
    ensures
        !spec_is_info_key(key@) ==> r is NotInfoKey && final(info)@ == old(info)@,
        spec_is_info_key(key@) && spec_apply_info_key(old(info)@, key@, value@) is Some
            ==> r is Applied && Some(final(info)@) == spec_apply_info_key(old(info)@, key@, value@),
        spec_is_info_key(key@) && spec_apply_info_key(old(info)@, key@, value@) is None
            ==> r is BadValue && final(info)@ == old(info)@,
    decreases value, 1nat,
{
    if str_eq(key, "push") {
        match decode_value(value) {
            Some(t) => {
                info.push = t;
                KeyOutcome::Applied
            },
            None => KeyOutcome::BadValue,
        }
    } else if str_eq(key, "pop") {
        match decode_opt_usize(value) {
            Some(x) => {
                info.pop = x;
                KeyOutcome::Applied
            },
            None => KeyOutcome::BadValue,
        }
    } else if str_eq(key, "jump") {
        match decode_value(value) {
            Some(t) => {
                info.push_call = t;
                KeyOutcome::Applied
            },
            None => KeyOutcome::BadValue,
        }
    } else if str_eq(key, "goto") {
        match decode_value(value) {
            Some(t) => {
                match info.pop_call {
                    Some(n) => {
                        if n < usize::MAX {
                            info.pop_call = Some(n + 1);
                        }
                    },
                    None => {},
                }
                info.push_call = t;
                KeyOutcome::Applied
            },
            None => KeyOutcome::BadValue,
        }
    } else if str_eq(key, "return") {
        match decode_opt_usize(value) {
            Some(x) => {
                info.pop_call = x;
                KeyOutcome::Applied
            },
            None => KeyOutcome::BadValue,
        }
    } else if str_eq(key, "exec") {
        match decode_value(value) {
            Some(t) => {
                info.exec_cmd = t;
                KeyOutcome::Applied
            },
            None => KeyOutcome::BadValue,
        }
    } else if str_eq(key, "fork") {
        match decode_bool(value) {
            Some(b) => {
                info.fork = b;
                KeyOutcome::Applied
            },
            None => KeyOutcome::BadValue,
        }
    } else if str_eq(key, "menu") {
        match crate::options::decode_options(value) {
            Some(m) => {
                info.menu = Some(Box::new(m));
                KeyOutcome::Applied
            },
            None => KeyOutcome::BadValue,
        }
    } else {
        KeyOutcome::NotInfoKey
    }
}

proof fn lemma_fallback_fold_prefix_none(pairs: Seq<(Seq<char>, JsonView)>, i: int, acc: InfoView)
    requires
        0 <= i <= pairs.len(),
        spec_fallback_fold(pairs.subrange(0, i), acc) is None,
    ensures
        spec_fallback_fold(pairs, acc) is None,
    decreases pairs,
{
    if i == pairs.len() {
        assert(pairs.subrange(0, i) =~= pairs);
    } else {
        assert(pairs.drop_last().subrange(0, i) =~= pairs.subrange(0, i));
        lemma_fallback_fold_prefix_none(pairs.drop_last(), i, acc);
    }
}

/// Decodes a transition written in the alias schema.
#[verifier::loop_isolation(false)]
pub fn decode_fallback_info(j: &Json) -> (r: Option<FallbackRow>)
    ensures
        r matches Some(f) ==> spec_decode_fallback_info(j@) == Some(f.0@),
        r is None ==> spec_decode_fallback_info(j@) is None,
    decreases j, 0nat,
{
    match j {
        Json::Obj(pairs) => {
            let mut info = Info::default();
            let mut i: usize = 0;
            proof {
                lemma_json_pairs_view_len(pairs@);
            }
            while i < pairs.len()
                invariant
                    i <= pairs.len(),
                    spec_fallback_fold(json_pairs_view(pairs@).subrange(0, i as int), spec_info_default())
                        == Some(info@),
                decreases pairs.len() - i,
            {
                proof {
                    lemma_json_pairs_view_index(pairs@, i as int);
                    assert(decreases_to!(*j => j->Obj_0));
                    assert(decreases_to!(*pairs => pairs@));
                    assert(decreases_to!(pairs@ => pairs@[i as int]));
                    assert(decreases_to!(pairs@[i as int] => pairs@[i as int].1));
                }
                let ghost gpairs = json_pairs_view(pairs@);
                let ghost pre = gpairs.subrange(0, i as int);
                let ghost post = gpairs.subrange(0, i + 1int);
                proof {
                    assert(post.drop_last() =~= pre);
                    assert(post.last() == (pairs@[i as int].0@, json_view(pairs@[i as int].1)));
                }
                let key = &pairs[i].0;
                let val = &pairs[i].1;
                match apply_info_key(&mut info, key.as_str(), val) {
                    KeyOutcome::Applied => {},
                    KeyOutcome::NotInfoKey => {
                        proof {
                            lemma_fallback_fold_prefix_none(gpairs, i + 1int, spec_info_default());
                        }
                        return None;
                    },
                    KeyOutcome::BadValue => {
                        proof {
                            lemma_fallback_fold_prefix_none(gpairs, i + 1int, spec_info_default());
                        }
                        return None;
                    },
                }
                i = i + 1;
            }
            proof {
                assert(json_pairs_view(pairs@).subrange(0, pairs@.len() as int) =~= json_pairs_view(pairs@));
            }
            Some(FallbackRow(info))
        },
        _ => None,
    }
}

} // verus!

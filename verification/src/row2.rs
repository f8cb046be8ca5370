//! The fallback-row grammar of the compact wire form: a row that carries
//! stack edits, a next script and a side-effect command in one framed
//! string rather than as JSON5.

use vstd::prelude::*;

use crate::data::{spec_decode_string, spec_decode_bool, decode_string, decode_bool};
use crate::json::{Json, JsonView, json_view, json_pairs_view, lemma_json_pairs_view_len,
    lemma_json_pairs_view_index, str_eq};
use crate::stack_op2::{FallbackStackOp, FallbackStackOpView, FallbackStackOps,
    spec_fb_op_text, spec_fb_ops_text, spec_decode_fb_op, spec_decode_fb_ops,
    decode_fb_op, decode_fb_ops};

verus! {

/// A fallback row of the compact wire form.
pub struct FallbackRow {
    /// The script to jump to, if any.
    pub next_script: Option<FallbackStackOp>,
    /// The side-effect command, empty for none.
    pub exec_cmd: String,
    /// Whether the side effect runs detached.
    pub fork: bool,
    /// The value-stack edits.
    pub ops: FallbackStackOps,
}

/// The mathematical model of a [`FallbackRow`].
pub struct FallbackRowView {
    pub next_script: Option<FallbackStackOpView>,
    pub exec_cmd: Seq<char>,
    pub fork: bool,
    pub ops: Seq<FallbackStackOpView>,
}

pub open spec fn fb_row_view(r: FallbackRow) -> FallbackRowView {
    FallbackRowView {
        next_script: match r.next_script {
            Some(op) => Some(crate::stack_op2::fb_op_view(op)),
            None => None,
        },
        exec_cmd: r.exec_cmd@,
        fork: r.fork,
        ops: crate::stack_op2::fb_ops_view(r.ops),
    }
}

impl View for FallbackRow {
    type V = FallbackRowView;

    open spec fn view(&self) -> FallbackRowView {
        fb_row_view(*self)
    }
}

pub open spec fn spec_fb_row_default() -> FallbackRowView {
    FallbackRowView {
        next_script: None,
        exec_cmd: Seq::empty(),
        fork: false,
        ops: Seq::empty(),
    }
}

impl Default for FallbackRow {
    fn default() -> (r: Self)
        ensures
            r@ == spec_fb_row_default(),
    {
        let r = FallbackRow {
            next_script: None,
            exec_cmd: "".to_owned(),
            fork: false,
            ops: FallbackStackOps(Vec::new()),
        };
        proof {
            reveal_strlit("");
            assert(r.exec_cmd@ =~= Seq::<char>::empty());
            assert(r.ops.0.deep_view() =~= Seq::<FallbackStackOpView>::empty());
        }
        r
    }
}

/// The compact wire text of a fallback row: the stack edits, then after
/// a separator the next script, then behind one semicolon (two when
/// forked) the command.
pub open spec fn spec_fb_row_info(r: FallbackRowView) -> Seq<char> {
    let base = spec_fb_ops_text(r.ops);
    match r.next_script {
        None => base,
        Some(op0) => {
            let a = base + (if r.ops.len() > 0 {
                seq!['\x03']
            } else {
                Seq::empty()
            }) + spec_fb_op_text(op0);
            if r.exec_cmd.len() > 0 {
                a + seq![';'] + (if r.fork {
                    seq![';']
                } else {
                    Seq::empty()
                }) + r.exec_cmd
            } else {
                a
            }
        },
    }
}

/// One key of the compact fallback-row schema.
pub open spec fn spec_fb_row_step(r: FallbackRowView, k: Seq<char>, v: JsonView) -> Option<FallbackRowView> {
    if k == "push"@ {
        match spec_decode_fb_ops(v) {
            Some(ops) => Some(FallbackRowView { ops: ops, ..r }),
            None => None,
        }
    } else if k == "jump"@ {
        match spec_decode_fb_op(v) {
            Some(op) => Some(FallbackRowView { next_script: Some(op), ..r }),
            None => None,
        }
    } else if k == "exec"@ {
        match spec_decode_string(v) {
            Some(s) => Some(FallbackRowView { exec_cmd: s, ..r }),
            None => None,
        }
    } else if k == "fork"@ {
        match spec_decode_bool(v) {
            Some(b) => Some(FallbackRowView { fork: b, ..r }),
            None => None,
        }
    } else {
        None
    }
}

pub open spec fn spec_fb_row_fold(pairs: Seq<(Seq<char>, JsonView)>, r: FallbackRowView) -> Option<FallbackRowView>
    decreases pairs.len(),
{
    if pairs.len() == 0 {
        Some(r)
    } else {
        match spec_fb_row_fold(pairs.drop_last(), r) {
            Some(r2) => spec_fb_row_step(r2, pairs.last().0, pairs.last().1),
            None => None,
        }
    }
}

/// The compact fallback-row grammar: an object with any subset of its
/// four keys, applied left to right over the defaults.
pub open spec fn spec_decode_fb_row(j: JsonView) -> Option<FallbackRowView> {
    match j {
        JsonView::Obj(pairs) => spec_fb_row_fold(pairs, spec_fb_row_default()),
        _ => None,
    }
}

proof fn lemma_fb_row_fold_prefix_none(pairs: Seq<(Seq<char>, JsonView)>, i: int, acc: FallbackRowView)
    requires
        0 <= i <= pairs.len(),
        spec_fb_row_fold(pairs.subrange(0, i), acc) is None,
    ensures
        spec_fb_row_fold(pairs, acc) is None,
    decreases pairs.len(),
{
    if i == pairs.len() {
        assert(pairs.subrange(0, i) =~= pairs);
    } else {
        assert(pairs.drop_last().subrange(0, i) =~= pairs.subrange(0, i));
        lemma_fb_row_fold_prefix_none(pairs.drop_last(), i, acc);
    }
}

impl FallbackRow {
    /// Renders the row's transition in the compact wire form.
    pub fn info(&self) -> (r: String)
        ensures
            r@ == spec_fb_row_info(self@),
    {
        let mut ret = self.ops.to_string();
        match &self.next_script {
            Some(op0) => {
                if self.ops.0.len() > 0 {
                    ret.append("\x03");
                    proof {
                        reveal_strlit("\x03");
                    }
                }
                let piece = op0.to_string();
                ret.append(piece.as_str());
                if !self.exec_cmd.as_str().is_empty() {
                    ret.append(";");
                    if self.fork {
                        ret.append(";");
                    }
                    ret.append(self.exec_cmd.as_str());
                    proof {
                        reveal_strlit(";");
                    }
                }
                proof {
                    assert(ret@ =~= spec_fb_row_info(self@));
                }
            },
            None => {},
        }
        ret
    }

    /// Decodes a fallback row of the compact schema.
    #[verifier::loop_isolation(false)]
    pub fn decode(j: &Json) -> (r: Option<FallbackRow>)
        ensures
            r matches Some(row) ==> spec_decode_fb_row(j@) == Some(row@),
            r is None ==> spec_decode_fb_row(j@) is None,
    {
        match j {
            Json::Obj(pairs) => {
                let mut row = FallbackRow::default();
                let mut i: usize = 0;
                proof {
                    lemma_json_pairs_view_len(pairs@);
                }
                while i < pairs.len()
                    invariant
                        i <= pairs.len(),
                        spec_fb_row_fold(json_pairs_view(pairs@).subrange(0, i as int), spec_fb_row_default())
                            == Some(row@),
                    decreases pairs.len() - i,
                {
                    proof {
                        lemma_json_pairs_view_index(pairs@, i as int);
                    }
                    let ghost gpairs = json_pairs_view(pairs@);
                    let ghost pre = gpairs.subrange(0, i as int);
                    let ghost post = gpairs.subrange(0, i + 1int);
                    proof {
                        assert(post.drop_last() =~= pre);
                        assert(post.last() == (pairs@[i as int].0@, json_view(pairs@[i as int].1)));
                    }
                    let key = &pairs[i].0;
                    let val = &pairs[i].1;
                    if str_eq(key.as_str(), "push") {
                        match decode_fb_ops(val) {
                            Some(ops) => {
                                row.ops = ops;
                            },
                            None => {
                                proof {
                                    lemma_fb_row_fold_prefix_none(gpairs, i + 1int, spec_fb_row_default());
                                }
                                return None;
                            },
                        }
                    } else if str_eq(key.as_str(), "jump") {
                        match decode_fb_op(val) {
                            Some(op) => {
                                row.next_script = Some(op);
                            },
                            None => {
                                proof {
                                    lemma_fb_row_fold_prefix_none(gpairs, i + 1int, spec_fb_row_default());
                                }
                                return None;
                            },
                        }
                    } else if str_eq(key.as_str(), "exec") {
                        match decode_string(val) {
                            Some(s) => {
                                row.exec_cmd = s;
                            },
                            None => {
                                proof {
                                    lemma_fb_row_fold_prefix_none(gpairs, i + 1int, spec_fb_row_default());
                                }
                                return None;
                            },
                        }
                    } else if str_eq(key.as_str(), "fork") {
                        match decode_bool(val) {
                            Some(b) => {
                                row.fork = b;
                            },
                            None => {
                                proof {
                                    lemma_fb_row_fold_prefix_none(gpairs, i + 1int, spec_fb_row_default());
                                }
                                return None;
                            },
                        }
                    } else {
                        proof {
                            lemma_fb_row_fold_prefix_none(gpairs, i + 1int, spec_fb_row_default());
                        }
                        return None;
                    }
                    i = i + 1;
                }
                proof {
                    assert(json_pairs_view(pairs@).subrange(0, pairs@.len() as int) =~= json_pairs_view(pairs@));
                }
                Some(row)
            },
            _ => None,
        }
    }
}

} // verus!

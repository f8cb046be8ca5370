//! The fallback flavour of the compact stack-edit wire form: it adds an
//! operation that pushes the user's freeform input.
//!
//! Tags: `\x01` push with payload, `\x02` pop, `\x05` push the input;
//! operations are joined by `\x03`.

use vstd::prelude::*;

use crate::json::{Json, JsonView, json_view, json_seq_view, lemma_json_seq_view_len,
    lemma_json_seq_view_index};
use crate::stack_op::{split_text, spec_split};

verus! {

/// One fallback stack operation.
#[derive(Eq, PartialEq, Debug)]
pub enum FallbackStackOp {
    Push(String),
    PushUser,
    Pop,
}

/// The mathematical model of a [`FallbackStackOp`].
pub enum FallbackStackOpView {
    Push(Seq<char>),
    PushUser,
    Pop,
}

pub open spec fn fb_op_view(op: FallbackStackOp) -> FallbackStackOpView {
    match op {
        FallbackStackOp::Push(s) => FallbackStackOpView::Push(s@),
        FallbackStackOp::PushUser => FallbackStackOpView::PushUser,
        FallbackStackOp::Pop => FallbackStackOpView::Pop,
    }
}

impl View for FallbackStackOp {
    type V = FallbackStackOpView;

    open spec fn view(&self) -> FallbackStackOpView {
        fb_op_view(*self)
    }
}

impl DeepView for FallbackStackOp {
    type V = FallbackStackOpView;

    open spec fn deep_view(&self) -> FallbackStackOpView {
        fb_op_view(*self)
    }
}

/// What applying one operation leaves on the stack: a push appends its
/// payload, a user push appends the input, and a pop removes the top
/// entry of a non-empty stack and leaves an empty one alone.
pub open spec fn spec_fb_op_apply(op: FallbackStackOpView, user: Seq<char>, stack: Seq<Seq<char>>) -> Seq<Seq<char>> {
    match op {
        FallbackStackOpView::Push(s) => stack.push(s),
        FallbackStackOpView::PushUser => stack.push(user),
        FallbackStackOpView::Pop => if stack.len() > 0 {
            stack.drop_last()
        } else {
            stack
        },
    }
}

impl FallbackStackOp {
    /// Applies the operation to a stack, resolving the user push against
    /// the given input.
    pub fn apply(self, user: &str, stack: &mut Vec<String>)
        ensures
            final(stack).deep_view() == spec_fb_op_apply(self@, user@, old(stack).deep_view()),
    {
        match self {
            Self::Push(x) => {
                let ghost old_deep = stack.deep_view();
                let ghost xv = x@;
                stack.push(x);
                proof {
                    assert(stack.deep_view() =~= old_deep.push(xv));
                }
            },
            Self::PushUser => {
                let ghost old_deep = stack.deep_view();
                stack.push(user.to_owned());
                proof {
                    assert(stack.deep_view() =~= old_deep.push(user@));
                }
            },
            Self::Pop => {
                let ghost old_deep = stack.deep_view();
                let _dropped = stack.pop();
                proof {
                    if old_deep.len() > 0 {
                        assert(stack.deep_view() =~= old_deep.drop_last());
                    } else {
                        assert(stack.deep_view() =~= old_deep);
                    }
                }
            },
        }
    }

    /// Renders the operation in the wire form.
    pub fn to_string(&self) -> (r: String)
        ensures
            r@ == spec_fb_op_text(self@),
    {
        match self {
            Self::Push(x) => {
                let mut ret = "\x01".to_owned();
                ret.append(x.as_str());
                proof {
                    reveal_strlit("\x01");
                    assert(ret@ =~= seq!['\x01'] + x@);
                }
                ret
            },
            Self::Pop => {
                let ret = "\x02".to_owned();
                proof {
                    reveal_strlit("\x02");
                    assert(ret@ =~= seq!['\x02']);
                }
                ret
            },
            Self::PushUser => {
                let ret = "\x05".to_owned();
                proof {
                    reveal_strlit("\x05");
                    assert(ret@ =~= seq!['\x05']);
                }
                ret
            },
        }
    }

    /// Reads one operation back from its wire form.
    pub fn from_str(s: &str) -> (r: Result<Self, ()>)
        ensures
            r matches Ok(op) ==> spec_parse_fb_op(s@) == Some(op@),
            r is Err ==> spec_parse_fb_op(s@) is None,
    {
        let n = s.unicode_len();
        if n == 0 {
            return Err(());
        }
        let c = s.get_char(0);
        if c == '\x01' {
            let rest = s.substring_char(1, n).to_owned();
            proof {
                assert(rest@ =~= s@.skip(1));
            }
            Ok(Self::Push(rest))
        } else if c == '\x02' {
            Ok(Self::Pop)
        } else if c == '\x05' {
            Ok(Self::PushUser)
        } else {
            Err(())
        }
    }
}

/// The wire text of one operation.
pub open spec fn spec_fb_op_text(op: FallbackStackOpView) -> Seq<char> {
    match op {
        FallbackStackOpView::Push(s) => seq!['\x01'] + s,
        FallbackStackOpView::Pop => seq!['\x02'],
        FallbackStackOpView::PushUser => seq!['\x05'],
    }
}

/// The operation a wire segment denotes.
pub open spec fn spec_parse_fb_op(s: Seq<char>) -> Option<FallbackStackOpView> {
    if s.len() == 0 {
        None
    } else if s[0] == '\x01' {
        Some(FallbackStackOpView::Push(s.skip(1)))
    } else if s[0] == '\x02' {
        Some(FallbackStackOpView::Pop)
    } else if s[0] == '\x05' {
        Some(FallbackStackOpView::PushUser)
    } else {
        None
    }
}

/// The operation a JSON shape denotes: a string pushes itself, null pops,
/// and a number pushes the user input.
pub open spec fn spec_decode_fb_op(j: JsonView) -> Option<FallbackStackOpView> {
    match j {
        JsonView::Str(s) => Some(FallbackStackOpView::Push(s)),
        JsonView::Null => Some(FallbackStackOpView::Pop),
        JsonView::Int(_) => Some(FallbackStackOpView::PushUser),
        _ => None,
    }
}

pub fn decode_fb_op(j: &Json) -> (r: Option<FallbackStackOp>)
    ensures
        r matches Some(op) ==> spec_decode_fb_op(j@) == Some(op@),
        r is None ==> spec_decode_fb_op(j@) is None,
{
    match j {
        Json::Str(s) => Some(FallbackStackOp::Push(s.clone())),
        Json::Null => Some(FallbackStackOp::Pop),
        Json::Int(_) => Some(FallbackStackOp::PushUser),
        _ => None,
    }
}

/// A sequence of fallback stack operations.
pub struct FallbackStackOps(pub Vec<FallbackStackOp>);

pub open spec fn fb_ops_view(ops: FallbackStackOps) -> Seq<FallbackStackOpView> {
    ops.0.deep_view()
}

impl View for FallbackStackOps {
    type V = Seq<FallbackStackOpView>;

    open spec fn view(&self) -> Seq<FallbackStackOpView> {
        fb_ops_view(*self)
    }
}

/// The wire text of a sequence: the operations' texts joined by `\x03`.
pub open spec fn spec_fb_ops_text_full(ops: Seq<FallbackStackOpView>) -> Seq<char>
    decreases ops.len(),
{
    if ops.len() == 0 {
        Seq::empty()
    } else {
        spec_fb_ops_text_full(ops.drop_last()) + spec_fb_op_text(ops.last()) + seq!['\x03']
    }
}

pub open spec fn spec_fb_ops_text(ops: Seq<FallbackStackOpView>) -> Seq<char> {
    let full = spec_fb_ops_text_full(ops);
    if full.len() == 0 {
        full
    } else {
        full.drop_last()
    }
}

/// The operations a wire text denotes: every segment must parse.
pub open spec fn spec_parse_fb_ops(s: Seq<char>) -> Option<Seq<FallbackStackOpView>> {
    spec_parse_fb_segments(spec_split(s, '\x03'))
}

pub open spec fn spec_parse_fb_segments(parts: Seq<Seq<char>>) -> Option<Seq<FallbackStackOpView>>
    decreases parts.len(),
{
    if parts.len() == 0 {
        Some(Seq::empty())
    } else {
        match (spec_parse_fb_segments(parts.drop_last()), spec_parse_fb_op(parts.last())) {
            (Some(ops), Some(op)) => Some(ops.push(op)),
            _ => None,
        }
    }
}

proof fn lemma_parse_fb_segments_prefix_none(parts: Seq<Seq<char>>, i: int)
    requires
        0 <= i < parts.len(),
        spec_parse_fb_op(parts[i]) is None,
    ensures
        spec_parse_fb_segments(parts) is None,
    decreases parts.len(),
{
    if i < parts.len() - 1 {
        lemma_parse_fb_segments_prefix_none(parts.drop_last(), i);
    }
}

/// The operations a JSON shape denotes: a bare string, null or number is
/// the one operation it denotes; an array lists operations.
pub open spec fn spec_decode_fb_ops(j: JsonView) -> Option<Seq<FallbackStackOpView>> {
    match j {
        JsonView::Str(s) => Some(seq![FallbackStackOpView::Push(s)]),
        JsonView::Null => Some(seq![FallbackStackOpView::Pop]),
        JsonView::Int(_) => Some(seq![FallbackStackOpView::PushUser]),
        JsonView::Arr(a) => spec_decode_fb_op_elems(a),
        _ => None,
    }
}

pub open spec fn spec_decode_fb_op_elems(a: Seq<JsonView>) -> Option<Seq<FallbackStackOpView>>
    decreases a.len(),
{
    if a.len() == 0 {
        Some(Seq::empty())
    } else {
        match (spec_decode_fb_op_elems(a.drop_last()), spec_decode_fb_op(a.last())) {
            (Some(ops), Some(op)) => Some(ops.push(op)),
            _ => None,
        }
    }
}

proof fn lemma_decode_fb_op_elems_prefix_none(a: Seq<JsonView>, i: int)
    requires
        0 <= i < a.len(),
        spec_decode_fb_op(a[i]) is None,
    ensures
        spec_decode_fb_op_elems(a) is None,
    decreases a.len(),
{
    if i < a.len() - 1 {
        lemma_decode_fb_op_elems_prefix_none(a.drop_last(), i);
    }
}

#[verifier::loop_isolation(false)]
pub fn decode_fb_ops(j: &Json) -> (r: Option<FallbackStackOps>)
    ensures
        r matches Some(ops) ==> spec_decode_fb_ops(j@) == Some(ops@),
        r is None ==> spec_decode_fb_ops(j@) is None,
{
    match j {
        Json::Str(s) => Some(FallbackStackOps(vec![FallbackStackOp::Push(s.clone())])),
        Json::Null => Some(FallbackStackOps(vec![FallbackStackOp::Pop])),
        Json::Int(_) => Some(FallbackStackOps(vec![FallbackStackOp::PushUser])),
        Json::Arr(a) => {
            let mut out: Vec<FallbackStackOp> = Vec::new();
            let mut i: usize = 0;
            proof {
                lemma_json_seq_view_len(a@);
            }
            while i < a.len()
                invariant
                    i <= a.len(),
                    spec_decode_fb_op_elems(json_seq_view(a@).subrange(0, i as int)) == Some(out.deep_view()),
                decreases a.len() - i,
            {
                proof {
                    lemma_json_seq_view_index(a@, i as int);
                    let pre = json_seq_view(a@).subrange(0, i as int);
                    let post = json_seq_view(a@).subrange(0, i + 1int);
                    assert(post.drop_last() =~= pre);
                    assert(post.last() == json_view(a@[i as int]));
                }
                match decode_fb_op(&a[i]) {
                    Some(op) => {
                        let ghost old_deep = out.deep_view();
                        let ghost opv = op@;
                        out.push(op);
                        proof {
                            assert(out.deep_view() =~= old_deep.push(opv));
                        }
                    },
                    None => {
                        proof {
                            lemma_decode_fb_op_elems_prefix_none(json_seq_view(a@), i as int);
                        }
                        return None;
                    },
                }
                i = i + 1;
            }
            proof {
                assert(json_seq_view(a@).subrange(0, a@.len() as int) =~= json_seq_view(a@));
            }
            Some(FallbackStackOps(out))
        },
        _ => None,
    }
}

impl FallbackStackOps {
    /// Renders the sequence in the wire form.
    #[verifier::loop_isolation(false)]
    pub fn to_string(&self) -> (r: String)
        ensures
            r@ == spec_fb_ops_text(self@),
    {
        let mut full = String::new();
        let mut i: usize = 0;
        while i < self.0.len()
            invariant
                i <= self.0.len(),
                full@ =~= spec_fb_ops_text_full(self@.subrange(0, i as int)),
            decreases self.0.len() - i,
        {
            let piece = self.0[i].to_string();
            full.append(piece.as_str());
            full.append("\x03");
            proof {
                reveal_strlit("\x03");
                let pre = self@.subrange(0, i as int);
                let post = self@.subrange(0, i + 1int);
                assert(post.drop_last() =~= pre);
                assert(post.last() == self.0@[i as int].deep_view());
                assert(full@ =~= spec_fb_ops_text_full(post));
            }
            i = i + 1;
        }
        proof {
            assert(self@.subrange(0, self@.len() as int) =~= self@);
        }
        let n = full.as_str().unicode_len();
        if n == 0 {
            full
        } else {
            let out = full.as_str().substring_char(0, n - 1).to_owned();
            proof {
                assert(out@ =~= spec_fb_ops_text(self@));
            }
            out
        }
    }

    /// Reads a sequence back from its wire form.
    #[verifier::loop_isolation(false)]
    pub fn from_str(s: &str) -> (r: Result<Self, ()>)
        ensures
            r matches Ok(ops) ==> spec_parse_fb_ops(s@) == Some(ops@),
            r is Err ==> spec_parse_fb_ops(s@) is None,
    {
        let parts = split_text(s, '\x03');
        let ghost gparts = spec_split(s@, '\x03');
        let mut out: Vec<FallbackStackOp> = Vec::new();
        let mut i: usize = 0;
        while i < parts.len()
            invariant
                i <= parts.len(),
                parts.deep_view() == gparts,
                spec_parse_fb_segments(gparts.subrange(0, i as int)) == Some(out.deep_view()),
            decreases parts.len() - i,
        {
            let ghost pre = gparts.subrange(0, i as int);
            let ghost post = gparts.subrange(0, i + 1int);
            proof {
                assert(post.drop_last() =~= pre);
                assert(post.last() == gparts[i as int]);
            }
            match FallbackStackOp::from_str(parts[i].as_str()) {
                Ok(op) => {
                    let ghost old_deep = out.deep_view();
                    let ghost opv = op@;
                    out.push(op);
                    proof {
                        assert(out.deep_view() =~= old_deep.push(opv));
                    }
                },
                Err(()) => {
                    proof {
                        lemma_parse_fb_segments_prefix_none(gparts, i as int);
                    }
                    return Err(());
                },
            }
            i = i + 1;
        }
        proof {
            assert(gparts.subrange(0, gparts.len() as int) =~= gparts);
        }
        Ok(FallbackStackOps(out))
    }
}

} // verus!

//! An older, compact wire form for value-stack edits: a sequence of
//! push/pop operations rendered as control-character-framed text.
//!
//! Each operation starts with a tag byte (`\x01` push with the payload
//! behind it, `\x02` pop); operations are joined by `\x03`.

use vstd::prelude::*;

use crate::json::{Json, JsonView, json_view, json_seq_view, lemma_json_seq_view_len,
    lemma_json_seq_view_index};

verus! {

/// One value-stack operation.
#[derive(Eq, PartialEq, Debug)]
pub enum StackOp {
    Push(String),
    Pop,
}

/// The mathematical model of a [`StackOp`].
pub enum StackOpView {
    Push(Seq<char>),
    Pop,
}

pub open spec fn stack_op_view(op: StackOp) -> StackOpView {
    match op {
        StackOp::Push(s) => StackOpView::Push(s@),
        StackOp::Pop => StackOpView::Pop,
    }
}

impl View for StackOp {
    type V = StackOpView;

    open spec fn view(&self) -> StackOpView {
        stack_op_view(*self)
    }
}

/// The index of the first occurrence of `sep`.
pub open spec fn spec_find(s: Seq<char>, sep: char) -> Option<int>
    decreases s.len(),
{
    if s.len() == 0 {
        None
    } else if s[0] == sep {
        Some(0int)
    } else {
        match spec_find(s.drop_first(), sep) {
            Some(i) => Some(i + 1),
            None => None,
        }
    }
}

proof fn lemma_find_range(s: Seq<char>, sep: char)
    ensures
        spec_find(s, sep) matches Some(i) ==> 0 <= i < s.len() && s[i] == sep,
    decreases s.len(),
{
    if s.len() > 0 && s[0] != sep {
        lemma_find_range(s.drop_first(), sep);
    }
}

/// The segments of a text between occurrences of `sep`; an empty text is
/// one empty segment.
pub open spec fn spec_split(s: Seq<char>, sep: char) -> Seq<Seq<char>>
    decreases s.len(),
    via spec_split_decreases
{
    match spec_find(s, sep) {
        None => seq![s],
        Some(i) => seq![s.take(i)] + spec_split(s.skip(i + 1), sep),
    }
}

#[via_fn]
proof fn spec_split_decreases(s: Seq<char>, sep: char) {
    lemma_find_range(s, sep);
}

proof fn lemma_find_at(s: Seq<char>, sep: char, k: int)
    requires
        0 <= k < s.len(),
        s[k] == sep,
        forall|j: int| 0 <= j < k ==> s[j] != sep,
    ensures
        spec_find(s, sep) == Some(k),
    decreases k,
{
    if k > 0 {
        lemma_find_at(s.drop_first(), sep, k - 1);
    }
}

proof fn lemma_find_none(s: Seq<char>, sep: char)
    requires
        forall|j: int| 0 <= j < s.len() ==> s[j] != sep,
    ensures
        spec_find(s, sep) is None,
    decreases s.len(),
{
    if s.len() > 0 {
        lemma_find_none(s.drop_first(), sep);
    }
}

/// Splits a text at every occurrence of `sep`.
#[verifier::loop_isolation(false)]
pub fn split_text(s: &str, sep: char) -> (r: Vec<String>)
    ensures
        r.deep_view() == spec_split(s@, sep),
{
    let n = s.unicode_len();
    let mut out: Vec<String> = Vec::new();
    let mut start: usize = 0;
    let mut i: usize = 0;
    proof {
        assert(s@.skip(0) =~= s@);
        assert(Seq::<Seq<char>>::empty() + spec_split(s@, sep) =~= spec_split(s@, sep));
    }
    while i < n
        invariant
            start <= i <= n,
            n == s@.len(),
            out.deep_view() + spec_split(s@.skip(start as int), sep) =~= spec_split(s@, sep),
            forall|j: int| start <= j < i ==> s@[j] != sep,
        decreases n - i,
    {
        if s.get_char(i) == sep {
            let ghost old_deep = out.deep_view();
            let ghost rest = s@.skip(start as int);
            out.push(s.substring_char(start, i).to_owned());
            proof {
                lemma_find_at(rest, sep, i - start as int);
                assert(rest.take(i - start as int) =~= s@.subrange(start as int, i as int));
                assert(rest.skip(i - start + 1int) =~= s@.skip(i + 1int));
                assert(out.deep_view() =~= old_deep.push(s@.subrange(start as int, i as int)));
                assert(old_deep.push(rest.take(i - start as int)) =~= old_deep + seq![rest.take(i - start as int)]);
            }
            start = i + 1;
        }
        i = i + 1;
    }
    let ghost rest = s@.skip(start as int);
    let ghost old_deep = out.deep_view();
    out.push(s.substring_char(start, n).to_owned());
    proof {
        lemma_find_none(rest, sep);
        assert(spec_split(rest, sep) == seq![rest]);
        assert(rest =~= s@.subrange(start as int, n as int));
        assert(out.deep_view() =~= old_deep.push(rest));
        assert(old_deep.push(rest) =~= old_deep + seq![rest]);
    }
    out
}

/// The wire text of one operation: the tag byte, then for a push its
/// payload.
pub open spec fn spec_stack_op_text(op: StackOpView) -> Seq<char> {
    match op {
        StackOpView::Push(s) => seq!['\x01'] + s,
        StackOpView::Pop => seq!['\x02'],
    }
}

/// The operation a wire segment denotes: its tag byte decides; for a
/// push the rest is the payload, for a pop the rest is ignored.
pub open spec fn spec_parse_stack_op(s: Seq<char>) -> Option<StackOpView> {
    if s.len() == 0 {
        None
    } else if s[0] == '\x01' {
        Some(StackOpView::Push(s.skip(1)))
    } else if s[0] == '\x02' {
        Some(StackOpView::Pop)
    } else {
        None
    }
}

impl StackOp {
    /// Renders the operation in the wire form.
    pub fn to_string(&self) -> (r: String)
        ensures
            r@ == spec_stack_op_text(self@),
    {
        match self {
            Self::Push(x) => {
                let mut ret = "\x01".to_owned();
                ret.append(x.as_str());
                proof {
                    reveal_strlit("\x01");
                    assert(ret@ =~= seq!['\x01'] + x@);
                }
                ret
            },
            Self::Pop => {
                let ret = "\x02".to_owned();
                proof {
                    reveal_strlit("\x02");
                    assert(ret@ =~= seq!['\x02']);
                }
                ret
            },
        }
    }

    /// Reads one operation back from its wire form.
    pub fn from_str(s: &str) -> (r: Result<Self, ()>)
        ensures
            r matches Ok(op) ==> spec_parse_stack_op(s@) == Some(op@),
            r is Err ==> spec_parse_stack_op(s@) is None,
    {
        let n = s.unicode_len();
        if n == 0 {
            return Err(());
        }
        let c = s.get_char(0);
        if c == '\x01' {
            let rest = s.substring_char(1, n).to_owned();
            proof {
                assert(rest@ =~= s@.skip(1));
            }
            Ok(Self::Push(rest))
        } else if c == '\x02' {
            Ok(Self::Pop)
        } else {
            Err(())
        }
    }
}

/// A sequence of value-stack operations.
pub struct StackOps(pub Vec<StackOp>);

pub open spec fn stack_ops_view(ops: StackOps) -> Seq<StackOpView> {
    ops.0.deep_view()
}

impl View for StackOps {
    type V = Seq<StackOpView>;

    open spec fn view(&self) -> Seq<StackOpView> {
        stack_ops_view(*self)
    }
}

impl DeepView for StackOp {
    type V = StackOpView;

    open spec fn deep_view(&self) -> StackOpView {
        stack_op_view(*self)
    }
}

/// The wire text of a sequence: the operations' texts joined by `\x03`,
/// built by appending the separator to each and dropping the last one.
pub open spec fn spec_stack_ops_text_full(ops: Seq<StackOpView>) -> Seq<char>
    decreases ops.len(),
{
    if ops.len() == 0 {
        Seq::empty()
    } else {
        spec_stack_ops_text_full(ops.drop_last()) + spec_stack_op_text(ops.last()) + seq!['\x03']
    }
}

pub open spec fn spec_stack_ops_text(ops: Seq<StackOpView>) -> Seq<char> {
    let full = spec_stack_ops_text_full(ops);
    if full.len() == 0 {
        full
    } else {
        full.drop_last()
    }
}

/// The operations a wire text denotes: every segment between `\x03`
/// separators must parse.
pub open spec fn spec_parse_stack_ops(s: Seq<char>) -> Option<Seq<StackOpView>> {
    spec_parse_op_segments(spec_split(s, '\x03'))
}

pub open spec fn spec_parse_op_segments(parts: Seq<Seq<char>>) -> Option<Seq<StackOpView>>
    decreases parts.len(),
{
    if parts.len() == 0 {
        Some(Seq::empty())
    } else {
        match (spec_parse_op_segments(parts.drop_last()), spec_parse_stack_op(parts.last())) {
            (Some(ops), Some(op)) => Some(ops.push(op)),
            _ => None,
        }
    }
}

proof fn lemma_parse_op_segments_prefix_none(parts: Seq<Seq<char>>, i: int)
    requires
        0 <= i < parts.len(),
        spec_parse_stack_op(parts[i]) is None,
    ensures
        spec_parse_op_segments(parts) is None,
    decreases parts.len(),
{
    if i < parts.len() - 1 {
        lemma_parse_op_segments_prefix_none(parts.drop_last(), i);
    }
}

impl StackOps {
    /// Renders the sequence in the wire form.
    #[verifier::loop_isolation(false)]
    pub fn to_string(&self) -> (r: String)
        ensures
            r@ == spec_stack_ops_text(self@),
    {
        let mut full = String::new();
        let mut i: usize = 0;
        while i < self.0.len()
            invariant
                i <= self.0.len(),
                full@ =~= spec_stack_ops_text_full(self@.subrange(0, i as int)),
            decreases self.0.len() - i,
        {
            let piece = self.0[i].to_string();
            full.append(piece.as_str());
            full.append("\x03");
            proof {
                reveal_strlit("\x03");
                let pre = self@.subrange(0, i as int);
                let post = self@.subrange(0, i + 1int);
                assert(post.drop_last() =~= pre);
                assert(post.last() == self.0@[i as int].deep_view());
                assert(full@ =~= spec_stack_ops_text_full(post));
            }
            i = i + 1;
        }
        proof {
            assert(self@.subrange(0, self@.len() as int) =~= self@);
        }
        let n = full.as_str().unicode_len();
        if n == 0 {
            full
        } else {
            let out = full.as_str().substring_char(0, n - 1).to_owned();
            proof {
                assert(out@ =~= spec_stack_ops_text(self@));
            }
            out
        }
    }

    /// Reads a sequence back from its wire form.
    #[verifier::loop_isolation(false)]
    pub fn from_str(s: &str) -> (r: Result<Self, ()>)
        ensures
            r matches Ok(ops) ==> spec_parse_stack_ops(s@) == Some(ops@),
            r is Err ==> spec_parse_stack_ops(s@) is None,
    {
        let parts = split_text(s, '\x03');
        let ghost gparts = spec_split(s@, '\x03');
        let mut out: Vec<StackOp> = Vec::new();
        let mut i: usize = 0;
        while i < parts.len()
            invariant
                i <= parts.len(),
                parts.deep_view() == gparts,
                spec_parse_op_segments(gparts.subrange(0, i as int)) == Some(out.deep_view()),
            decreases parts.len() - i,
        {
            let ghost pre = gparts.subrange(0, i as int);
            let ghost post = gparts.subrange(0, i + 1int);
            proof {
                assert(post.drop_last() =~= pre);
                assert(post.last() == gparts[i as int]);
            }
            match StackOp::from_str(parts[i].as_str()) {
                Ok(op) => {
                    let ghost old_deep = out.deep_view();
                    let ghost opv = op@;
                    out.push(op);
                    proof {
                        assert(out.deep_view() =~= old_deep.push(opv));
                    }
                },
                Err(()) => {
                    proof {
                        lemma_parse_op_segments_prefix_none(gparts, i as int);
                    }
                    return Err(());
                },
            }
            i = i + 1;
        }
        proof {
            assert(gparts.subrange(0, gparts.len() as int) =~= gparts);
        }
        Ok(StackOps(out))
    }
}

/// The operation a JSON shape denotes: a string pushes itself, null pops.
pub open spec fn spec_decode_stack_op(j: JsonView) -> Option<StackOpView> {
    match j {
        JsonView::Str(s) => Some(StackOpView::Push(s)),
        JsonView::Null => Some(StackOpView::Pop),
        _ => None,
    }
}

pub fn decode_stack_op(j: &Json) -> (r: Option<StackOp>)
    ensures
        r matches Some(op) ==> spec_decode_stack_op(j@) == Some(op@),
        r is None ==> spec_decode_stack_op(j@) is None,
{
    match j {
        Json::Str(s) => Some(StackOp::Push(s.clone())),
        Json::Null => Some(StackOp::Pop),
        _ => None,
    }
}

/// The operations a JSON shape denotes: a bare string or null is the one
/// operation it denotes; an array lists operations.
pub open spec fn spec_decode_stack_ops(j: JsonView) -> Option<Seq<StackOpView>> {
    match j {
        JsonView::Str(s) => Some(seq![StackOpView::Push(s)]),
        JsonView::Null => Some(seq![StackOpView::Pop]),
        JsonView::Arr(a) => spec_decode_stack_op_elems(a),
        _ => None,
    }
}

pub open spec fn spec_decode_stack_op_elems(a: Seq<JsonView>) -> Option<Seq<StackOpView>>
    decreases a.len(),
{
    if a.len() == 0 {
        Some(Seq::empty())
    } else {
        match (spec_decode_stack_op_elems(a.drop_last()), spec_decode_stack_op(a.last())) {
            (Some(ops), Some(op)) => Some(ops.push(op)),
            _ => None,
        }
    }
}

proof fn lemma_decode_stack_op_elems_prefix_none(a: Seq<JsonView>, i: int)
    requires
        0 <= i < a.len(),
        spec_decode_stack_op(a[i]) is None,
    ensures
        spec_decode_stack_op_elems(a) is None,
    decreases a.len(),
{
    if i < a.len() - 1 {
        lemma_decode_stack_op_elems_prefix_none(a.drop_last(), i);
    }
}

#[verifier::loop_isolation(false)]
pub fn decode_stack_ops(j: &Json) -> (r: Option<StackOps>)
    ensures
        r matches Some(ops) ==> spec_decode_stack_ops(j@) == Some(ops@),
        r is None ==> spec_decode_stack_ops(j@) is None,
{
    match j {
        Json::Str(s) => Some(StackOps(vec![StackOp::Push(s.clone())])),
        Json::Null => Some(StackOps(vec![StackOp::Pop])),
        Json::Arr(a) => {
            let mut out: Vec<StackOp> = Vec::new();
            let mut i: usize = 0;
            proof {
                lemma_json_seq_view_len(a@);
            }
            while i < a.len()
                invariant
                    i <= a.len(),
                    spec_decode_stack_op_elems(json_seq_view(a@).subrange(0, i as int)) == Some(out.deep_view()),
                decreases a.len() - i,
            {
                proof {
                    lemma_json_seq_view_index(a@, i as int);
                    let pre = json_seq_view(a@).subrange(0, i as int);
                    let post = json_seq_view(a@).subrange(0, i + 1int);
                    assert(post.drop_last() =~= pre);
                    assert(post.last() == json_view(a@[i as int]));
                }
                match decode_stack_op(&a[i]) {
                    Some(op) => {
                        let ghost old_deep = out.deep_view();
                        let ghost opv = op@;
                        out.push(op);
                        proof {
                            assert(out.deep_view() =~= old_deep.push(opv));
                        }
                    },
                    None => {
                        proof {
                            lemma_decode_stack_op_elems_prefix_none(json_seq_view(a@), i as int);
                        }
                        return None;
                    },
                }
                i = i + 1;
            }
            proof {
                assert(json_seq_view(a@).subrange(0, a@.len() as int) =~= json_seq_view(a@));
            }
            Some(StackOps(out))
        },
        _ => None,
    }
}

} // verus!

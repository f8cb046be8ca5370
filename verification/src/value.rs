//! The polymorphic string-tree value grammar.
//!
//! A [`VecString`] resolves against the current user input: `Single` is a
//! fixed text, `UserInput` stands for the input, and `Multi` is a list of
//! trees.  `flatten` joins every leaf into one string; `flatten1` expands
//! one depth level, producing one string per top-level element.

use vstd::prelude::*;

use crate::json::{Json, JsonView, json_view, json_seq_view, lemma_json_seq_view_len,
    lemma_json_seq_view_index};

verus! {

/// A value that resolves against a user-input string.
#[derive(Debug)]
pub enum VecString {
    Multi(Vec<VecString>),
    Single(String),
    UserInput,
}

/// The mathematical model of a [`VecString`].
pub enum VecStringView {
    Multi(Seq<VecStringView>),
    Single(Seq<char>),
    UserInput,
}

pub open spec fn vecstring_view(t: VecString) -> VecStringView
    decreases t,
{
    match t {
        VecString::Multi(v) => VecStringView::Multi(vecstring_seq_view(v@)),
        VecString::Single(s) => VecStringView::Single(s@),
        VecString::UserInput => VecStringView::UserInput,
    }
}

pub open spec fn vecstring_seq_view(s: Seq<VecString>) -> Seq<VecStringView>
    decreases s,
{
    if s.len() == 0 {
        Seq::empty()
    } else {
        vecstring_seq_view(s.drop_last()).push(vecstring_view(s.last()))
    }
}

impl View for VecString {
    type V = VecStringView;

    open spec fn view(&self) -> VecStringView {
        vecstring_view(*self)
    }
}

impl DeepView for VecString {
    type V = VecStringView;

    open spec fn deep_view(&self) -> VecStringView {
        vecstring_view(*self)
    }
}

pub broadcast proof fn lemma_vecstring_seq_view_len(s: Seq<VecString>)
    ensures
        #[trigger] vecstring_seq_view(s).len() == s.len(),
    decreases s,
{
    if s.len() > 0 {
        lemma_vecstring_seq_view_len(s.drop_last());
    }
}

pub broadcast proof fn lemma_vecstring_seq_view_index(s: Seq<VecString>, i: int)
    requires
        0 <= i < s.len(),
    ensures
        #[trigger] vecstring_seq_view(s)[i] == vecstring_view(s[i]),
    decreases s,
{
    lemma_vecstring_seq_view_len(s);
    if i < s.len() - 1 {
        lemma_vecstring_seq_view_index(s.drop_last(), i);
    }
}

/// `join`: the single string a tree resolves to, given the user input.
pub open spec fn spec_join(t: VecStringView, input: Seq<char>) -> Seq<char>
    decreases t,
{
    match t {
        VecStringView::Multi(xs) => spec_join_all(xs, input),
        VecStringView::Single(s) => s,
        VecStringView::UserInput => input,
    }
}

pub open spec fn spec_join_all(xs: Seq<VecStringView>, input: Seq<char>) -> Seq<char>
    decreases xs,
{
    if xs.len() == 0 {
        Seq::empty()
    } else {
        spec_join_all(xs.drop_last(), input) + spec_join(xs.last(), input)
    }
}

/// `expand`: one string per top-level element; leaves below are joined.
pub open spec fn spec_expand(t: VecStringView, input: Seq<char>) -> Seq<Seq<char>> {
    match t {
        VecStringView::Multi(xs) => Seq::new(xs.len(), |i: int| spec_join(xs[i], input)),
        VecStringView::Single(s) => seq![s],
        VecStringView::UserInput => seq![input],
    }
}

/// A tree is empty exactly when it is `Multi` of nothing.
pub open spec fn spec_is_empty(t: VecStringView) -> bool {
    t matches VecStringView::Multi(xs) && xs.len() == 0
}

impl VecString {
    pub fn is_empty(&self) -> (r: bool)
        ensures
            r == spec_is_empty(self@),
    {
        match self {
            Self::Multi(x) => {
                proof {
                    lemma_vecstring_seq_view_len(x@);
                }
                x.len() == 0
            },
            _ => false,
        }
    }

    #[verifier::loop_isolation(false)]
    pub fn flatten(&self, input: &str) -> (r: String)
        ensures
            r@ == spec_join(self@, input@),
        decreases self,
    {
        match self {
            Self::Multi(v) => {
                let mut ret = String::new();
                let mut i: usize = 0;
                proof {
                    lemma_vecstring_seq_view_len(v@);
                }
                while i < v.len()
                    invariant
                        i <= v.len(),
                        vecstring_seq_view(v@).len() == v@.len(),
                        ret@ == spec_join_all(vecstring_seq_view(v@).subrange(0, i as int), input@),
                    decreases v.len() - i,
                {
                    proof {
                        assert(decreases_to!(*self => self->Multi_0));
                        assert(decreases_to!(*v => v@));
                        assert(decreases_to!(v@ => v@[i as int]));
                    }
                    let piece = v[i].flatten(input);
                    ret.append(piece.as_str());
                    proof {
                        lemma_vecstring_seq_view_index(v@, i as int);
                        let pre = vecstring_seq_view(v@).subrange(0, i as int);
                        let post = vecstring_seq_view(v@).subrange(0, i + 1int);
                        assert(post.drop_last() =~= pre);
                        assert(post.last() == vecstring_view(v@[i as int]));
                    }
                    i = i + 1;
                }
                proof {
                    assert(vecstring_seq_view(v@).subrange(0, v@.len() as int) =~= vecstring_seq_view(v@));
                }
                ret
            },
            Self::Single(s) => s.clone(),
            Self::UserInput => input.to_owned(),
        }
    }

    pub fn flatten1(&self, input: &str) -> (r: Vec<String>)
        ensures
            r.deep_view() == spec_expand(self@, input@),
    {
        match self {
            Self::Multi(v) => {
                let mut ret: Vec<String> = Vec::new();
                let mut i: usize = 0;
                proof {
                    lemma_vecstring_seq_view_len(v@);
                }
                while i < v.len()
                    invariant
                        i <= v.len(),
                        vecstring_seq_view(v@).len() == v@.len(),
                        ret.deep_view() =~= Seq::new(i as nat, |k: int| spec_join(vecstring_seq_view(v@)[k], input@)),
                    decreases v.len() - i,
                {
                    let piece = v[i].flatten(input);
                    let ghost old_deep = ret.deep_view();
                    let ghost pv = piece@;
                    ret.push(piece);
                    proof {
                        lemma_vecstring_seq_view_index(v@, i as int);
                        assert(ret.deep_view() =~= old_deep.push(pv));
                        assert(old_deep.push(pv) =~= Seq::new((i + 1) as nat, |k: int| spec_join(vecstring_seq_view(v@)[k], input@)));
                    }
                    i = i + 1;
                }
                proof {
                    assert(ret.deep_view() =~= spec_expand(self@, input@));
                }
                ret
            },
            Self::Single(s) => {
                let ret = vec![s.clone()];
                proof {
                    assert(ret.deep_view() =~= seq![s@]);
                }
                ret
            },
            Self::UserInput => {
                let ret = vec![input.to_owned()];
                proof {
                    assert(ret.deep_view() =~= seq![input@]);
                }
                ret
            },
        }
    }
}

impl VecString {
    /// A deep copy; [`VecString`] is recursive, so this takes the place
    /// of a derived clone.
    #[verifier::loop_isolation(false)]
    pub fn duplicate(&self) -> (r: Self)
        ensures
            r@ == self@,
        decreases self,
    {
        match self {
            Self::Single(s) => Self::Single(s.clone()),
            Self::UserInput => Self::UserInput,
            Self::Multi(v) => {
                let mut out: Vec<VecString> = Vec::new();
                let mut i: usize = 0;
                proof {
                    lemma_vecstring_seq_view_len(v@);
                }
                while i < v.len()
                    invariant
                        i <= v.len(),
                        vecstring_seq_view(out@) == vecstring_seq_view(v@).subrange(0, i as int),
                        out@.len() == i,
                    decreases v.len() - i,
                {
                    proof {
                        assert(decreases_to!(*self => self->Multi_0));
                        assert(decreases_to!(*v => v@));
                        assert(decreases_to!(v@ => v@[i as int]));
                        lemma_vecstring_seq_view_index(v@, i as int);
                    }
                    let ghost old_out = out@;
                    let piece = v[i].duplicate();
                    let ghost pv = piece@;
                    out.push(piece);
                    proof {
                        let pre = vecstring_seq_view(v@).subrange(0, i as int);
                        let post = vecstring_seq_view(v@).subrange(0, i + 1int);
                        assert(post.drop_last() =~= pre);
                        assert(post.last() == vecstring_view(v@[i as int]));
                        assert(out@.drop_last() =~= old_out);
                        assert(vecstring_seq_view(out@) == vecstring_seq_view(out@.drop_last()).push(vecstring_view(out@.last())));
                    }
                    i = i + 1;
                }
                proof {
                    assert(vecstring_seq_view(v@).subrange(0, v@.len() as int) =~= vecstring_seq_view(v@));
                }
                Self::Multi(out)
            },
        }
    }
}

/// The value a JSON shape denotes in the tree grammar: a string is a
/// `Single` text, null is the user input, an array is a `Multi` of its
/// elements; every other shape is rejected.
pub open spec fn spec_decode_value(j: JsonView) -> Option<VecStringView>
    decreases j,
{
    match j {
        JsonView::Str(s) => Some(VecStringView::Single(s)),
        JsonView::Null => Some(VecStringView::UserInput),
        JsonView::Arr(a) => match spec_decode_values(a) {
            Some(xs) => Some(VecStringView::Multi(xs)),
            None => None,
        },
        _ => None,
    }
}

pub open spec fn spec_decode_values(a: Seq<JsonView>) -> Option<Seq<VecStringView>>
    decreases a,
{
    if a.len() == 0 {
        Some(Seq::empty())
    } else {
        match (spec_decode_values(a.drop_last()), spec_decode_value(a.last())) {
            (Some(xs), Some(x)) => Some(xs.push(x)),
            _ => None,
        }
    }
}

/// The JSON shape a tree serializes to: `Single` as a string, `UserInput`
/// as null, `Multi` as an array.
pub open spec fn spec_encode_value(t: VecStringView) -> JsonView
    decreases t,
{
    match t {
        VecStringView::Single(s) => JsonView::Str(s),
        VecStringView::UserInput => JsonView::Null,
        VecStringView::Multi(xs) => JsonView::Arr(spec_encode_values(xs)),
    }
}

pub open spec fn spec_encode_values(xs: Seq<VecStringView>) -> Seq<JsonView>
    decreases xs,
{
    if xs.len() == 0 {
        Seq::empty()
    } else {
        spec_encode_values(xs.drop_last()).push(spec_encode_value(xs.last()))
    }
}

pub broadcast proof fn lemma_spec_encode_values_len(xs: Seq<VecStringView>)
    ensures
        #[trigger] spec_encode_values(xs).len() == xs.len(),
    decreases xs,
{
    if xs.len() > 0 {
        lemma_spec_encode_values_len(xs.drop_last());
    }
}

pub broadcast proof fn lemma_spec_encode_values_index(xs: Seq<VecStringView>, i: int)
    requires
        0 <= i < xs.len(),
    ensures
        #[trigger] spec_encode_values(xs)[i] == spec_encode_value(xs[i]),
    decreases xs,
{
    lemma_spec_encode_values_len(xs);
    if i < xs.len() - 1 {
        lemma_spec_encode_values_index(xs.drop_last(), i);
    }
}

#[verifier::loop_isolation(false)]
pub fn decode_value(j: &Json) -> (r: Option<VecString>)
    ensures
        r matches Some(t) ==> spec_decode_value(j@) == Some(t@),
        r is None ==> spec_decode_value(j@) is None,
    decreases j,
{
    match j {
        Json::Str(s) => Some(VecString::Single(s.clone())),
        Json::Null => Some(VecString::UserInput),
        Json::Arr(a) => {
            let mut out: Vec<VecString> = Vec::new();
            let mut i: usize = 0;
            proof {
                lemma_json_seq_view_len(a@);
            }
            while i < a.len()
                invariant
                    i <= a.len(),
                    json_seq_view(a@).len() == a@.len(),
                    spec_decode_values(json_seq_view(a@).subrange(0, i as int)) == Some(vecstring_seq_view(out@)),
                    out@.len() == i,
                decreases a.len() - i,
            {
                proof {
                    lemma_json_seq_view_index(a@, i as int);
                    assert(decreases_to!(*j => j->Arr_0));
                    assert(decreases_to!(*a => a@));
                    assert(decreases_to!(a@ => a@[i as int]));
                }
                let ghost old_out = out@;
                match decode_value(&a[i]) {
                    Some(t) => {
                        let ghost tv = t@;
                        out.push(t);
                        proof {
                            let pre = json_seq_view(a@).subrange(0, i as int);
                            let post = json_seq_view(a@).subrange(0, i + 1int);
                            assert(post.drop_last() =~= pre);
                            assert(post.last() == json_view(a@[i as int]));
                            assert(out@.drop_last() =~= old_out);
                            assert(vecstring_seq_view(out@) == vecstring_seq_view(out@.drop_last()).push(vecstring_view(out@.last())));
                            assert(vecstring_seq_view(out@) == vecstring_seq_view(old_out).push(tv));
                        }
                    },
                    None => {
                        proof {
                            lemma_spec_decode_values_prefix_none(json_seq_view(a@), i as int);
                        }
                        return None;
                    },
                }
                i = i + 1;
            }
            proof {
                assert(json_seq_view(a@).subrange(0, a@.len() as int) =~= json_seq_view(a@));
            }
            Some(VecString::Multi(out))
        },
        _ => None,
    }
}

/// If decoding fails at element `i`, the whole array fails.
proof fn lemma_spec_decode_values_prefix_none(a: Seq<JsonView>, i: int)
    requires
        0 <= i < a.len(),
        spec_decode_value(a[i]) is None,
    ensures
        spec_decode_values(a) is None,
    decreases a,
{
    if i == a.len() - 1 {
    } else {
        lemma_spec_decode_values_prefix_none(a.drop_last(), i);
    }
}

#[verifier::loop_isolation(false)]
pub fn encode_value(t: &VecString) -> (r: Json)
    ensures
        r@ == spec_encode_value(t@),
    decreases t,
{
    match t {
        VecString::Single(s) => Json::Str(s.clone()),
        VecString::UserInput => Json::Null,
        VecString::Multi(v) => {
            let mut out: Vec<Json> = Vec::new();
            let mut i: usize = 0;
            proof {
                lemma_vecstring_seq_view_len(v@);
            }
            while i < v.len()
                invariant
                    i <= v.len(),
                    vecstring_seq_view(v@).len() == v@.len(),
                    json_seq_view(out@) == spec_encode_values(vecstring_seq_view(v@).subrange(0, i as int)),
                    out@.len() == i,
                decreases v.len() - i,
            {
                proof {
                    assert(decreases_to!(*t => t->Multi_0));
                    assert(decreases_to!(*v => v@));
                    assert(decreases_to!(v@ => v@[i as int]));
                }
                let ghost old_out = out@;
                let piece = encode_value(&v[i]);
                let ghost pv = piece@;
                out.push(piece);
                proof {
                    lemma_vecstring_seq_view_index(v@, i as int);
                    let pre = vecstring_seq_view(v@).subrange(0, i as int);
                    let post = vecstring_seq_view(v@).subrange(0, i + 1int);
                    assert(post.drop_last() =~= pre);
                    assert(post.last() == vecstring_view(v@[i as int]));
                    assert(out@.drop_last() =~= old_out);
                    assert(json_seq_view(out@) == json_seq_view(out@.drop_last()).push(json_view(out@.last())));
                    assert(json_seq_view(out@) == json_seq_view(old_out).push(pv));
                }
                i = i + 1;
            }
            proof {
                assert(vecstring_seq_view(v@).subrange(0, v@.len() as int) =~= vecstring_seq_view(v@));
            }
            Json::Arr(out)
        },
    }
}

/// Grammar round trip, one direction: every tree decodes back from its
/// own encoding.
pub proof fn lemma_value_round_trip(t: VecStringView)
    ensures
        spec_decode_value(spec_encode_value(t)) == Some(t),
    decreases t,
{
    match t {
        VecStringView::Single(_) => {},
        VecStringView::UserInput => {},
        VecStringView::Multi(xs) => {
            lemma_values_round_trip(xs);
        },
    }
}

proof fn lemma_values_round_trip(xs: Seq<VecStringView>)
    ensures
        spec_decode_values(spec_encode_values(xs)) == Some(xs),
    decreases xs,
{
    if xs.len() == 0 {
    } else {
        lemma_values_round_trip(xs.drop_last());
        lemma_value_round_trip(xs.last());
        lemma_spec_encode_values_len(xs);
        let enc = spec_encode_values(xs);
        assert(enc.drop_last() =~= spec_encode_values(xs.drop_last()));
        assert(enc.last() == spec_encode_value(xs.last()));
        assert(xs.drop_last().push(xs.last()) =~= xs);
    }
}

/// Grammar round trip, the other direction: every decodable JSON shape
/// is reproduced by encoding its decoding.
pub proof fn lemma_value_round_trip_json(j: JsonView)
    requires
        spec_decode_value(j) is Some,
    ensures
        spec_encode_value(spec_decode_value(j)->Some_0) == j,
    decreases j,
{
    match j {
        JsonView::Str(_) => {},
        JsonView::Null => {},
        JsonView::Arr(a) => {
            lemma_values_round_trip_json(a);
        },
        _ => {},
    }
}

proof fn lemma_values_round_trip_json(a: Seq<JsonView>)
    requires
        spec_decode_values(a) is Some,
    ensures
        spec_encode_values(spec_decode_values(a)->Some_0) == a,
    decreases a,
{
    if a.len() == 0 {
        assert(spec_encode_values(spec_decode_values(a)->Some_0) =~= a);
    } else {
        lemma_values_round_trip_json(a.drop_last());
        lemma_value_round_trip_json(a.last());
        let xs = spec_decode_values(a)->Some_0;
        let pre = spec_decode_values(a.drop_last())->Some_0;
        assert(xs == pre.push(spec_decode_value(a.last())->Some_0));
        assert(xs.drop_last() =~= pre);
        assert(xs.len() > 0);
        assert(spec_encode_values(xs) == spec_encode_values(pre).push(spec_encode_value(xs.last())));
        assert(spec_encode_values(xs) =~= a);
    }
}

/// `expand` produces one string per top-level element: as many as the
/// list for `Multi`, one otherwise.
pub proof fn lemma_expand_len(t: VecStringView, input: Seq<char>)
    ensures
        spec_expand(t, input).len() == (match t {
            VecStringView::Multi(xs) => xs.len(),
            _ => 1,
        }),
{
}

/// `join` of a `Multi` is the concatenation of the joins of its elements.
pub proof fn lemma_join_multi(xs: Seq<VecStringView>, input: Seq<char>)
    ensures
        spec_join(VecStringView::Multi(xs), input) == Seq::new(xs.len(), |i: int| spec_join(xs[i], input)).flatten(),
    decreases xs,
{
    let mapped = Seq::new(xs.len(), |i: int| spec_join(xs[i], input));
    if xs.len() == 0 {
        assert(mapped =~= Seq::<Seq<char>>::empty());
        assert(Seq::<Seq<char>>::empty().flatten() =~= Seq::<char>::empty());
    } else {
        lemma_join_multi(xs.drop_last(), input);
        let mapped_pre = Seq::new(xs.drop_last().len(), |i: int| spec_join(xs.drop_last()[i], input));
        assert(mapped =~= mapped_pre.push(spec_join(xs.last(), input)));
        mapped_pre.lemma_flatten_push(spec_join(xs.last(), input));
    }
}

/// Expanding and then joining the pieces with an empty separator is the
/// same as joining directly.
pub proof fn lemma_expand_then_join(t: VecStringView, input: Seq<char>)
    ensures
        spec_expand(t, input).flatten() == spec_join(t, input),
{
    match t {
        VecStringView::Multi(xs) => {
            lemma_join_multi(xs, input);
        },
        VecStringView::Single(s) => {
            seq![s].lemma_flatten_one_element();
        },
        VecStringView::UserInput => {
            seq![input].lemma_flatten_one_element();
        },
    }
}

} // verus!

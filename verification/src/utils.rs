use vstd::prelude::*;
use crate::parser::Parser;

verus! {

/// Pairwise sequencing: run the left parser, then the right parser on the
/// left's remaining input.  All-or-nothing: if either fails, the whole
/// sequence fails and no partial consumption escapes outward.
pub struct And<L, R>(pub L, pub R);

impl<L: Parser, R: Parser> Parser for And<L, R> {
    type Output = (L::Output, R::Output);

    open spec fn spec_parse(&self, s: Seq<u8>, pos: int) -> Option<((L::Output, R::Output), int)> {
        match self.0.spec_parse(s, pos) {
            None => None,
            Some((l, mid)) => match self.1.spec_parse(s, mid) {
                None => None,
                Some((r, end)) => Some((((l, r)), end)),
            },
        }
    }

    proof fn lemma_parse_in_range(&self, s: Seq<u8>, pos: int) {
        self.0.lemma_parse_in_range(s, pos);
        if let Some((l, mid)) = self.0.spec_parse(s, pos) {
            self.1.lemma_parse_in_range(s, mid);
        }
    }

    fn parse(&self, s: &[u8], pos: usize) -> (r: Option<(((L::Output, R::Output)), usize)>) {
        let (l, mid) = match self.0.parse(s, pos) {
            None => return None,
            Some(l) => l,
        };
        proof {
            self.0.lemma_parse_in_range(s@, pos as int);
        }
        let (r, end) = match self.1.parse(s, mid) {
            None => return None,
            Some(r) => r,
        };
        Some(((l, r), end))
    }
}

/// The tagged union of the two output types of an ordered choice: `L` marks
/// a success of the first branch, `R` one of the second.
pub enum Either<L, R> {
    L(L),
    R(R),
}

/// Ordered choice: run the left parser; only if it fails is the right parser
/// tried, and then on the original input, never on a partial remainder.  The
/// first success wins and the other branch is never consulted.
pub struct Or<L, R>(pub L, pub R);

impl<L: Parser, R: Parser> Parser for Or<L, R> {
    type Output = Either<L::Output, R::Output>;

    open spec fn spec_parse(&self, s: Seq<u8>, pos: int) -> Option<(
        Either<L::Output, R::Output>,
        int,
    )> {
        match self.0.spec_parse(s, pos) {
            Some((l, end)) => Some((Either::L(l), end)),
            None => match self.1.spec_parse(s, pos) {
                Some((r, end)) => Some((Either::R(r), end)),
                None => None,
            },
        }
    }

    proof fn lemma_parse_in_range(&self, s: Seq<u8>, pos: int) {
        self.0.lemma_parse_in_range(s, pos);
        self.1.lemma_parse_in_range(s, pos);
    }

    fn parse(&self, s: &[u8], pos: usize) -> (r: Option<(
        Either<L::Output, R::Output>,
        usize,
    )>) {
        if let Some((l, end)) = self.0.parse(s, pos) {
            Some((Either::L(l), end))
        } else {
            match self.1.parse(s, pos) {
                Some((r, end)) => Some((Either::R(r), end)),
                None => None,
            }
        }
    }
}

/// A pure output mapping, the shape of the host-supplied semantic actions a
/// `Mapped` combinator applies: `spec_apply` is its meaning and `apply` is
/// proved to agree with it.
pub trait Transform<A>: Sized {
    type To;

    /// What the transform makes of a value.
    spec fn spec_apply(&self, a: A) -> Self::To;

    /// Apply the transform; the result is exactly `spec_apply`.
    fn apply(&self, a: A) -> (r: Self::To)
        ensures
            r == self.spec_apply(a),
    ;
}

/// The identity transform: it hands its argument back unchanged.
pub struct Ident;

impl<A> Transform<A> for Ident {
    type To = A;

    open spec fn spec_apply(&self, a: A) -> A {
        a
    }

    fn apply(&self, a: A) -> (r: A) {
        a
    }
}

/// Transformation: run the underlying parser and, on success, map its output
/// through the transform, leaving the remaining input unchanged; failure is
/// propagated untouched.
pub struct Mapped<P, F>(pub P, pub F);

impl<P: Parser, F: Transform<P::Output>> Parser for Mapped<P, F> {
    type Output = F::To;

    open spec fn spec_parse(&self, s: Seq<u8>, pos: int) -> Option<(F::To, int)> {
        match self.0.spec_parse(s, pos) {
            Some((v, end)) => Some((self.1.spec_apply(v), end)),
            None => None,
        }
    }

    proof fn lemma_parse_in_range(&self, s: Seq<u8>, pos: int) {
        self.0.lemma_parse_in_range(s, pos);
    }

    fn parse(&self, s: &[u8], pos: usize) -> (r: Option<(F::To, usize)>) {
        match self.0.parse(s, pos) {
            Some((v, end)) => Some((self.1.apply(v), end)),
            None => None,
        }
    }
}

/// The outputs of a tuple-sequence, in declaration order.  A plain recursive
/// list, so that a contract can state the whole output value exactly.
pub enum OutList<T> {
    Nil,
    Cons(T, Box<OutList<T>>),
}

/// The elements of an output list, in order.
pub open spec fn spec_out_seq<T>(l: OutList<T>) -> Seq<T>
    decreases l,
{
    match l {
        OutList::Nil => Seq::empty(),
        OutList::Cons(v, rest) => seq![v] + spec_out_seq(*rest),
    }
}

impl<T> OutList<T> {
    /// Flatten the list into a vector holding the same elements in order.
    pub fn into_vec(self) -> (r: Vec<T>)
        ensures
            r@ == spec_out_seq(self),
    {
        let mut l = self;
        let mut r: Vec<T> = Vec::new();
        loop
            invariant
                r@ + spec_out_seq(l) == spec_out_seq(self),
            decreases l,
        {
            match l {
                OutList::Nil => {
                    assert(r@ == r@ + spec_out_seq(OutList::<T>::Nil));
                    return r;
                },
                OutList::Cons(v, rest) => {
                    r.push(v);
                    l = *rest;
                },
            }
        }
    }
}

/// The meaning of running the parsers of `ps` one after the other, threading
/// the cursor: fail as soon as one fails, otherwise collect every output in
/// declaration order and stop at the last parser's remaining input.
pub open spec fn spec_parse_seq<P: Parser>(ps: Seq<P>, s: Seq<u8>, pos: int) -> Option<(
    OutList<P::Output>,
    int,
)>
    decreases ps.len(),
{
    if ps.len() == 0 {
        Some((OutList::Nil, pos))
    } else {
        match ps[0].spec_parse(s, pos) {
            None => None,
            Some((v, mid)) => match spec_parse_seq(ps.drop_first(), s, mid) {
                None => None,
                Some((vs, end)) => Some((OutList::Cons(v, Box::new(vs)), end)),
            },
        }
    }
}

/// The generalized, n-ary sequencing combinator over a runtime list of
/// sub-parsers: all-or-nothing, outputs in declaration order.
pub struct Tuple<P>(pub Vec<P>);

impl<P: Parser> Parser for Tuple<P> {
    type Output = OutList<P::Output>;

    open spec fn spec_parse(&self, s: Seq<u8>, pos: int) -> Option<(OutList<P::Output>, int)> {
        spec_parse_seq(self.0@, s, pos)
    }

    proof fn lemma_parse_in_range(&self, s: Seq<u8>, pos: int) {
        lemma_parse_seq_in_range(self.0@, s, pos);
    }

    fn parse(&self, s: &[u8], pos: usize) -> (r: Option<(OutList<P::Output>, usize)>) {
        proof {
            assert(self.0@.skip(0) =~= self.0@);
        }
        parse_seq_from(&self.0, 0, s, pos)
    }
}

/// The cursor bound of `lemma_parse_in_range`, for a whole list of parsers.
proof fn lemma_parse_seq_in_range<P: Parser>(ps: Seq<P>, s: Seq<u8>, pos: int)
    requires
        0 <= pos <= s.len(),
    ensures
        (match spec_parse_seq(ps, s, pos) {
            Some((vs, end)) => pos <= end <= s.len(),
            None => true,
        }),
    decreases ps.len(),
{
    if ps.len() != 0 {
        ps[0].lemma_parse_in_range(s, pos);
        if let Some((v, mid)) = ps[0].spec_parse(s, pos) {
            lemma_parse_seq_in_range(ps.drop_first(), s, mid);
        }
    }
}

/// Run the parsers of `ps` from index `i` on, threading the cursor.
fn parse_seq_from<P: Parser>(ps: &Vec<P>, i: usize, s: &[u8], pos: usize) -> (r: Option<(
    OutList<P::Output>,
    usize,
)>)
    requires
        i <= ps@.len(),
        pos <= s@.len(),
    ensures
        (match r {
            Some((vs, end)) => spec_parse_seq(ps@.skip(i as int), s@, pos as int) == Some(
                (vs, end as int),
            ),
            None => spec_parse_seq(ps@.skip(i as int), s@, pos as int) is None,
        }),
    decreases ps@.len() - i,
{
    if i == ps.len() {
        assert(ps@.skip(i as int) =~= Seq::<P>::empty());
        Some((OutList::Nil, pos))
    } else {
        proof {
            assert(ps@.skip(i as int)[0] == ps@[i as int]);
            assert(ps@.skip(i as int).drop_first() =~= ps@.skip(i as int + 1));
        }
        match ps[i].parse(s, pos) {
            None => None,
            Some((v, mid)) => {
                proof {
                    ps@[i as int].lemma_parse_in_range(s@, pos as int);
                }
                match parse_seq_from(ps, i + 1, s, mid) {
                    None => None,
                    Some((vs, end)) => Some((OutList::Cons(v, Box::new(vs)), end)),
                }
            },
        }
    }
}

/// The sequencing law: `And(P, Q)` succeeds exactly when `P` succeeds on the
/// input and `Q` succeeds on `P`'s remaining input; the output is the exact
/// pair of their outputs, the remaining input is `Q`'s remaining input, and
/// a failure of either parser fails the whole sequence.
pub proof fn lemma_and_law<L: Parser, R: Parser>(a: And<L, R>, s: Seq<u8>, pos: int)
    ensures
        a.spec_parse(s, pos) == (match a.0.spec_parse(s, pos) {
            Some((l, mid)) => match a.1.spec_parse(s, mid) {
                Some((r, end)) => Some((((l, r)), end)),
                None => None,
            },
            None => None::<((L::Output, R::Output), int)>,
        }),
{
}

/// The ordered-choice law: when the first parser succeeds, the result is the
/// first parser's output and remaining input alone, whatever the second
/// would have done; only when the first fails is the second tried, and then
/// on the original input, never on a partial remainder.
pub proof fn lemma_or_law<L: Parser, R: Parser>(o: Or<L, R>, s: Seq<u8>, pos: int)
    ensures
        (match o.0.spec_parse(s, pos) {
            Some((l, end)) => o.spec_parse(s, pos) == Some(
                (Either::<L::Output, R::Output>::L(l), end),
            ),
            None => o.spec_parse(s, pos) == (match o.1.spec_parse(s, pos) {
                Some((r, end)) => Some((Either::<L::Output, R::Output>::R(r), end)),
                None => None,
            }),
        }),
{
}

/// The transform law: mapping a parser's output through the identity
/// transform changes nothing, neither the output nor the remaining input.
pub proof fn lemma_map_identity<P: Parser>(m: Mapped<P, Ident>, s: Seq<u8>, pos: int)
    ensures
        m.spec_parse(s, pos) == m.0.spec_parse(s, pos),
{
    match m.0.spec_parse(s, pos) {
        Some((v, end)) => {
            assert(m.spec_parse(s, pos) == Some((v, end)));
        },
        None => {
        },
    }
}

/// One half of the tuple-sequence law: over elements that all succeed, one
/// after the other at the positions of `cuts`, the tuple-sequence succeeds,
/// its outputs are the elements' outputs in declaration order, and its
/// remaining input is the last element's remaining input.
pub proof fn lemma_tuple_all_succeed<P: Parser>(
    ps: Seq<P>,
    s: Seq<u8>,
    cuts: Seq<int>,
    outs: Seq<P::Output>,
)
    requires
        cuts.len() == ps.len() + 1,
        outs.len() == ps.len(),
        forall|i: int|
            0 <= i < ps.len() ==> ps[i].spec_parse(s, cuts[i]) == Some((outs[i], cuts[i + 1])),
    ensures
        spec_parse_seq(ps, s, cuts[0]) matches Some((vs, end)) && spec_out_seq(vs) == outs && end
            == cuts[ps.len() as int],
    decreases ps.len(),
{
    if ps.len() == 0 {
        assert(spec_out_seq(OutList::<P::Output>::Nil) =~= outs);
    } else {
        assert(ps[0].spec_parse(s, cuts[0]) == Some((outs[0], cuts[1])));
        lemma_tuple_all_succeed(ps.drop_first(), s, cuts.drop_first(), outs.drop_first());
        let (vs, end) = spec_parse_seq(ps.drop_first(), s, cuts[1]).unwrap();
        assert(spec_out_seq(OutList::Cons(outs[0], Box::new(vs))) =~= outs);
    }
}

/// The other half of the tuple-sequence law: if the elements before index
/// `k` succeed and the element at `k` then fails, the whole tuple-sequence
/// fails, and no partially synthesized output escapes.
pub proof fn lemma_tuple_elem_fails<P: Parser>(ps: Seq<P>, s: Seq<u8>, pos: int, k: int)
    requires
        0 <= k < ps.len(),
        (match spec_parse_seq(ps.take(k), s, pos) {
            Some((vs, mid)) => ps[k].spec_parse(s, mid) is None,
            None => false,
        }),
    ensures
        spec_parse_seq(ps, s, pos) is None,
    decreases k,
{
    if k == 0 {
        assert(ps.take(0) =~= Seq::<P>::empty());
    } else {
        assert(ps.take(k)[0] == ps[0]);
        let (v, mid) = ps[0].spec_parse(s, pos).unwrap();
        assert(ps.take(k).drop_first() =~= ps.drop_first().take(k - 1));
        assert(ps.drop_first()[k - 1] == ps[k]);
        lemma_tuple_elem_fails(ps.drop_first(), s, mid, k - 1);
    }
}

} // verus!

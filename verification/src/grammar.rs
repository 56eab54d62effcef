use vstd::prelude::*;
use crate::parser::spec_pat_parse;
use crate::parser::pat_parse;
use crate::parser::Parser;
use crate::spec_lit_parse;

verus! {

/// A value produced while running a grammar: the output alphabet shared by
/// every rule.  Spans are byte offsets into the buffer being parsed; a node
/// carries an operator byte and its two operands.
pub enum Value {
    Byte(u8),
    Span(usize, usize),
    Num(u64),
    Node(u8, Box<Value>, Box<Value>),
}

/// A sub-parser reference inside a production: a literal byte, a pattern
/// text for the pattern-span matcher, or another rule of the same grammar,
/// by index.
pub enum Elem {
    Lit(u8),
    Pat(String),
    Rule(usize),
}

/// Whether a production element's output is bound, that is handed to the
/// action, or a wildcard whose slot is discarded.
pub enum Binding {
    Bind,
    Wild,
}

/// The semantic action of a production, consuming the bound values in
/// order: hand back the i-th bound value; read a bound span as a decimal
/// number; or build an operator node from three bound values, the middle
/// one a literal byte.
pub enum Action {
    Nth(usize),
    Num,
    Node,
}

/// One ordered alternative of a rule: the (binding, sub-parser) pairs in
/// declaration order, and the action that consumes the bound values.  The
/// binding count equals the element count by construction.
pub struct Production {
    pub elems: Vec<(Binding, Elem)>,
    pub action: Action,
}

/// A named nonterminal: an ordered list of productions, tried in
/// declaration order, every one from the same starting input.
pub struct Rule {
    pub name: String,
    pub prods: Vec<Production>,
}

/// A set of named rules referencing one another by index: the whole
/// declarative grammar, built once ahead of any parse and immutable from
/// then on.
pub struct Grammar {
    pub rules: Vec<Rule>,
}

/// Whether every byte of `t` is a decimal digit.
pub open spec fn spec_all_digits(t: Seq<u8>) -> bool {
    forall|i: int| 0 <= i < t.len() ==> (48 <= #[trigger] t[i] <= 57)
}

/// The numeric value of a digit string, most significant digit first; the
/// empty string counts as zero.
pub open spec fn spec_digits_val(t: Seq<u8>) -> int
    decreases t.len(),
{
    if t.len() == 0 {
        0
    } else {
        spec_digits_val(t.drop_last()) * 10 + (t.last() - 48)
    }
}

proof fn lemma_all_digits_drop_last(t: Seq<u8>)
    requires
        t.len() > 0,
        spec_all_digits(t),
    ensures
        spec_all_digits(t.drop_last()),
{
    assert forall|i: int| 0 <= i < t.drop_last().len() implies (48 <= #[trigger] t.drop_last()[i]
        <= 57) by {
        assert(t.drop_last()[i] == t[i]);
    }
}

proof fn lemma_digits_val_nonneg(t: Seq<u8>)
    requires
        spec_all_digits(t),
    ensures
        spec_digits_val(t) >= 0,
    decreases t.len(),
{
    if t.len() > 0 {
        lemma_all_digits_drop_last(t);
        lemma_digits_val_nonneg(t.drop_last());
        assert(t.last() >= 48);
    }
}

/// A digit string is worth at least any of its prefixes.
proof fn lemma_digits_val_take_le(t: Seq<u8>, j: int)
    requires
        spec_all_digits(t),
        0 <= j <= t.len(),
    ensures
        spec_digits_val(t.take(j)) <= spec_digits_val(t),
    decreases t.len() - j,
{
    if j == t.len() {
        assert(t.take(j) =~= t);
    } else {
        assert(t.take(j + 1).drop_last() =~= t.take(j));
        assert(t.take(j + 1).last() == t[j]);
        assert forall|i: int| 0 <= i < t.take(j).len() implies (48 <= #[trigger] t.take(j)[i]
            <= 57) by {
            assert(t.take(j)[i] == t[i]);
        }
        lemma_digits_val_nonneg(t.take(j));
        assert(spec_digits_val(t.take(j + 1)) == spec_digits_val(t.take(j)) * 10 + (t[j] - 48));
        lemma_digits_val_take_le(t, j + 1);
    }
}

/// Read the decimal number written in `s[st..en]`.  Succeeds exactly when
/// the span is nonempty, holds digits only, and its value fits the result
/// type; the result is then that value.
pub fn digits_value(s: &[u8], st: usize, en: usize) -> (r: Option<u64>)
    requires
        st <= en <= s@.len(),
    ensures
        (match r {
            Some(v) => en > st && spec_all_digits(s@.subrange(st as int, en as int)) && v
                == spec_digits_val(s@.subrange(st as int, en as int)),
            None => !(en > st && spec_all_digits(s@.subrange(st as int, en as int))
                && spec_digits_val(s@.subrange(st as int, en as int)) <= u64::MAX),
        }),
{
    let ghost sub = s@.subrange(st as int, en as int);
    if st == en {
        return None;
    }
    let mut v: u64 = 0;
    let mut i: usize = st;
    while i < en
        invariant
            st <= i <= en <= s@.len(),
            sub == s@.subrange(st as int, en as int),
            spec_all_digits(s@.subrange(st as int, i as int)),
            v == spec_digits_val(s@.subrange(st as int, i as int)),
        decreases en - i,
    {
        let ghost pre = s@.subrange(st as int, i as int);
        let b = s[i];
        proof {
            assert(sub[i - st] == b);
            assert(sub.take(i - st as int) =~= pre);
            assert(sub.take(i - st + 1).drop_last() =~= pre);
            assert(sub.take(i - st + 1).last() == b);
        }
        if b < 48 || b > 57 {
            proof {
                assert(!spec_all_digits(sub));
            }
            return None;
        }
        let d: u64 = (b - 48) as u64;
        if v > u64::MAX / 10 || {
            let w = v * 10;
            d > u64::MAX - w
        } {
            proof {
                assert(spec_digits_val(sub.take(i - st + 1)) == v * 10 + d);
                assert(spec_digits_val(sub.take(i - st + 1)) > u64::MAX);
                if spec_all_digits(sub) {
                    lemma_digits_val_take_le(sub, i - st + 1);
                }
            }
            return None;
        }
        v = v * 10 + d;
        i = i + 1;
        proof {
            assert(s@.subrange(st as int, i as int) =~= sub.take(i - st as int));
            assert forall|k: int| 0 <= k < i - st implies (48 <= #[trigger] s@.subrange(
                st as int,
                i as int,
            )[k] <= 57) by {
                assert(s@.subrange(st as int, i as int)[k] == sub[k]);
                if k < i - st - 1 {
                    assert(pre[k] == sub[k]);
                }
            }
        }
    }
    proof {
        assert(s@.subrange(st as int, i as int) =~= sub);
    }
    Some(v)
}

/// What an action makes of the bound values `args` collected over the
/// buffer `s`: `Nth(i)` hands back the i-th bound value; `Num` reads a
/// single bound span as a decimal number; `Node` joins three bound values,
/// the middle one a literal byte, into an operator node.  `None` marks a
/// mismatch between the action and the values it was handed.
pub open spec fn spec_apply_action(a: Action, args: Seq<Value>, s: Seq<u8>) -> Option<Value> {
    match a {
        Action::Nth(i) => if (i as int) < args.len() {
            Some(args[i as int])
        } else {
            None
        },
        Action::Num => if args.len() == 1 {
            match args[0] {
                Value::Span(st, en) => if st <= en <= s.len() && en > st && spec_all_digits(
                    s.subrange(st as int, en as int),
                ) && spec_digits_val(s.subrange(st as int, en as int)) <= u64::MAX {
                    Some(Value::Num(spec_digits_val(s.subrange(st as int, en as int)) as u64))
                } else {
                    None
                },
                _ => None,
            }
        } else {
            None
        },
        Action::Node => if args.len() == 3 {
            match args[1] {
                Value::Byte(op) => Some(Value::Node(op, Box::new(args[0]), Box::new(args[2]))),
                _ => None,
            }
        } else {
            None
        },
    }
}

/// Apply the action to the bound values; the result is exactly what
/// `spec_apply_action` says, a mismatch included.
pub fn apply_action(a: &Action, args: Vec<Value>, s: &[u8]) -> (r: Option<Value>)
    ensures
        r == spec_apply_action(*a, args@, s@),
{
    let ghost orig = args@;
    let mut args = args;
    match a {
        Action::Nth(i) => {
            if *i < args.len() {
                Some(args.remove(*i))
            } else {
                None
            }
        },
        Action::Num => {
            if args.len() == 1 {
                match args.remove(0) {
                    Value::Span(st, en) => {
                        if st <= en && en <= s.len() {
                            match digits_value(s, st, en) {
                                Some(v) => Some(Value::Num(v)),
                                None => None,
                            }
                        } else {
                            None
                        }
                    },
                    _ => None,
                }
            } else {
                None
            }
        },
        Action::Node => {
            if args.len() == 3 {
                let l = args.remove(0);
                proof {
                    assert(args@ =~= orig.subrange(1, 3));
                }
                let op = args.remove(0);
                proof {
                    assert(op == orig[1]);
                    assert(args@ =~= orig.subrange(2, 3));
                }
                let r = args.remove(0);
                proof {
                    assert(r == orig[2]);
                }
                match op {
                    Value::Byte(b) => Some(Value::Node(b, Box::new(l), Box::new(r))),
                    _ => None,
                }
            } else {
                None
            }
        },
    }
}

/// The meaning of invoking the rule at index `ri`: try its productions in
/// declaration order.  A rule index outside the grammar fails.  `fuel`
/// bounds how deeply rules may invoke rules; every step into a referenced
/// rule costs one unit, so a grammar that recurses without consuming input
/// (immediate left recursion, which this engine does not support) runs out
/// of fuel instead of regressing forever.
pub open spec fn spec_run_rule(g: Grammar, ri: int, s: Seq<u8>, pos: int, fuel: nat) -> Option<
    (Value, int),
>
    decreases fuel, 2int, 0int,
{
    if 0 <= ri < g.rules@.len() {
        spec_run_prods(g, g.rules@[ri].prods@, s, pos, fuel)
    } else {
        None
    }
}

/// The meaning of trying the productions of a rule in order: each
/// production is run on the rule's own starting input, never on a partial
/// remainder left by an earlier failed production; the first production
/// whose elements and action both succeed decides the result, and when none
/// succeeds the rule fails.
pub open spec fn spec_run_prods(
    g: Grammar,
    prods: Seq<Production>,
    s: Seq<u8>,
    pos: int,
    fuel: nat,
) -> Option<(Value, int)>
    decreases fuel, 1int, prods.len(),
{
    if prods.len() == 0 {
        None
    } else {
        match spec_run_elems(g, prods[0].elems@, s, pos, fuel) {
            Some((args, end)) => match spec_apply_action(prods[0].action, args, s) {
                Some(v) => Some((v, end)),
                None => spec_run_prods(g, prods.drop_first(), s, pos, fuel),
            },
            None => spec_run_prods(g, prods.drop_first(), s, pos, fuel),
        }
    }
}

/// The meaning of a production's body, the tuple-sequence over its
/// elements: thread the cursor through the elements in declaration order
/// and fail as soon as one fails, so that no partial consumption escapes
/// outward; collect the outputs of the bound slots, discarding wildcard
/// slots.
pub open spec fn spec_run_elems(
    g: Grammar,
    elems: Seq<(Binding, Elem)>,
    s: Seq<u8>,
    pos: int,
    fuel: nat,
) -> Option<(Seq<Value>, int)>
    decreases fuel, 0int, elems.len(),
{
    if elems.len() == 0 {
        Some((Seq::empty(), pos))
    } else {
        let sub = match elems[0].1 {
            Elem::Lit(b) => match spec_lit_parse(b, s, pos) {
                Some((c, end)) => Some((Value::Byte(c), end)),
                None => None,
            },
            Elem::Pat(p) => match spec_pat_parse(p@, s, pos) {
                Some((sp, end)) => Some((Value::Span(sp.0, sp.1), end)),
                None => None,
            },
            Elem::Rule(j) => if fuel > 0 {
                spec_run_rule(g, j as int, s, pos, (fuel - 1) as nat)
            } else {
                None
            },
        };
        match sub {
            None => None,
            Some((v, mid)) => match spec_run_elems(g, elems.drop_first(), s, mid, fuel) {
                None => None,
                Some((args, end)) => Some(
                    (
                        if elems[0].0 is Bind {
                            args.insert(0, v)
                        } else {
                            args
                        },
                        end,
                    ),
                ),
            },
        }
    }
}

impl Grammar {
    /// Invoke the rule at index `ri` at `pos` in `s`, with a recursion
    /// budget of `fuel` nested rule invocations.  The result is exactly
    /// what `spec_run_rule` says, on success and on failure alike.
    pub fn run_rule(&self, ri: usize, s: &[u8], pos: usize, fuel: u64) -> (r: Option<
        (Value, usize),
    >)
        requires
            pos <= s@.len(),
        ensures
            (match r {
                Some((v, end)) => spec_run_rule(*self, ri as int, s@, pos as int, fuel as nat)
                    == Some((v, end as int)) && pos <= end <= s@.len(),
                None => spec_run_rule(*self, ri as int, s@, pos as int, fuel as nat) is None,
            }),
        decreases fuel, 2int, 0int,
    {
        if ri < self.rules.len() {
            proof {
                assert(self.rules@[ri as int].prods@.skip(0) =~= self.rules@[ri as int].prods@);
            }
            self.run_prods(ri, 0, s, pos, fuel)
        } else {
            None
        }
    }

    /// The top-level parse contract: run the rule at index `ri` over the
    /// whole buffer from its start, with the largest recursion budget.  The
    /// result is either nothing (failure) or a value together with the
    /// offset where the leftover suffix begins; a leftover short of the
    /// buffer's end marks an incomplete parse, and checking for that is the
    /// caller's responsibility.
    pub fn parse(&self, ri: usize, s: &[u8]) -> (r: Option<(Value, usize)>)
        ensures
            (match r {
                Some((v, end)) => spec_run_rule(*self, ri as int, s@, 0, u64::MAX as nat) == Some(
                    (v, end as int),
                ) && end <= s@.len(),
                None => spec_run_rule(*self, ri as int, s@, 0, u64::MAX as nat) is None,
            }),
    {
        self.run_rule(ri, s, 0, u64::MAX)
    }

    /// The index of the first rule carrying `name`, if any: the mapping
    /// from rule names to parsers.
    pub fn rule_index(&self, name: &String) -> (r: Option<usize>)
        ensures
            (match r {
                Some(i) => i < self.rules@.len() && self.rules@[i as int].name@ == name@ && (forall|
                    j: int,
                |
                    0 <= j < i ==> self.rules@[j].name@ != name@),
                None => forall|j: int| 0 <= j < self.rules@.len() ==> self.rules@[j].name@ != name@,
            }),
    {
        let mut i: usize = 0;
        while i < self.rules.len()
            invariant
                i <= self.rules@.len(),
                forall|j: int| 0 <= j < i ==> self.rules@[j].name@ != name@,
            decreases self.rules@.len() - i,
        {
            if self.rules[i].name == *name {
                return Some(i);
            }
            i = i + 1;
        }
        None
    }

    /// Try the productions of rule `ri` from production index `k` on, each
    /// from the same starting cursor.
    fn run_prods(&self, ri: usize, k: usize, s: &[u8], pos: usize, fuel: u64) -> (r: Option<
        (Value, usize),
    >)
        requires
            ri < self.rules@.len(),
            k <= self.rules@[ri as int].prods@.len(),
            pos <= s@.len(),
        ensures
            (match r {
                Some((v, end)) => spec_run_prods(
                    *self,
                    self.rules@[ri as int].prods@.skip(k as int),
                    s@,
                    pos as int,
                    fuel as nat,
                ) == Some((v, end as int)) && pos <= end <= s@.len(),
                None => spec_run_prods(
                    *self,
                    self.rules@[ri as int].prods@.skip(k as int),
                    s@,
                    pos as int,
                    fuel as nat,
                ) is None,
            }),
        decreases fuel, 1int, self.rules@[ri as int].prods@.len() - k,
    {
        let ghost prods = self.rules@[ri as int].prods@;
        if k == self.rules[ri].prods.len() {
            proof {
                assert(prods.skip(k as int) =~= Seq::<Production>::empty());
            }
            return None;
        }
        proof {
            assert(prods.skip(k as int)[0] == prods[k as int]);
            assert(prods.skip(k as int).drop_first() =~= prods.skip(k as int + 1));
            assert(self.rules@[ri as int].prods@[k as int].elems@.skip(0) =~= self.rules@[
                ri as int
            ].prods@[k as int].elems@);
        }
        match self.run_elems(ri, k, 0, s, pos, fuel) {
            Some((args, end)) => {
                match apply_action(&self.rules[ri].prods[k].action, args, s) {
                    Some(v) => Some((v, end)),
                    None => self.run_prods(ri, k + 1, s, pos, fuel),
                }
            },
            None => self.run_prods(ri, k + 1, s, pos, fuel),
        }
    }

    /// Run the elements of production `k` of rule `ri` from element index
    /// `ei` on, threading the cursor and collecting the bound outputs.
    fn run_elems(&self, ri: usize, k: usize, ei: usize, s: &[u8], pos: usize, fuel: u64) -> (r:
        Option<(Vec<Value>, usize)>)
        requires
            ri < self.rules@.len(),
            k < self.rules@[ri as int].prods@.len(),
            ei <= self.rules@[ri as int].prods@[k as int].elems@.len(),
            pos <= s@.len(),
        ensures
            (match r {
                Some((args, end)) => spec_run_elems(
                    *self,
                    self.rules@[ri as int].prods@[k as int].elems@.skip(ei as int),
                    s@,
                    pos as int,
                    fuel as nat,
                ) == Some((args@, end as int)) && pos <= end <= s@.len(),
                None => spec_run_elems(
                    *self,
                    self.rules@[ri as int].prods@[k as int].elems@.skip(ei as int),
                    s@,
                    pos as int,
                    fuel as nat,
                ) is None,
            }),
        decreases fuel, 0int, self.rules@[ri as int].prods@[k as int].elems@.len() - ei,
    {
        let ghost elems = self.rules@[ri as int].prods@[k as int].elems@;
        if ei == self.rules[ri].prods[k].elems.len() {
            proof {
                assert(elems.skip(ei as int) =~= Seq::<(Binding, Elem)>::empty());
            }
            return Some((Vec::new(), pos));
        }
        proof {
            assert(elems.skip(ei as int)[0] == elems[ei as int]);
            assert(elems.skip(ei as int).drop_first() =~= elems.skip(ei as int + 1));
        }
        let sub: Option<(Value, usize)> = match &self.rules[ri].prods[k].elems[ei].1 {
            Elem::Lit(b) => {
                match b.parse(s, pos) {
                    Some((c, end)) => Some((Value::Byte(c), end)),
                    None => None,
                }
            },
            Elem::Pat(p) => {
                match pat_parse(p.as_str(), s, pos) {
                    Some((sp, end)) => Some((Value::Span(sp.0, sp.1), end)),
                    None => None,
                }
            },
            Elem::Rule(j) => {
                if fuel > 0 {
                    self.run_rule(*j, s, pos, fuel - 1)
                } else {
                    None
                }
            },
        };
        match sub {
            None => None,
            Some((v, mid)) => {
                match self.run_elems(ri, k, ei + 1, s, mid, fuel) {
                    None => None,
                    Some((mut args, end)) => {
                        match &self.rules[ri].prods[k].elems[ei].0 {
                            Binding::Bind => {
                                args.insert(0, v);
                                Some((args, end))
                            },
                            Binding::Wild => Some((args, end)),
                        }
                    },
                }
            },
        }
    }
}

} // verus!

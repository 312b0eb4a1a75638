//! Linear combinations over committed variables, with integer coefficients:
//! the second instance of the quantity algebra, from which the proof circuit's
//! constraints are built.
use vstd::prelude::*;
use crate::quantity::{ZKPNLCalculable, fits_i64};

verus! {

/// A variable of the constraint system: the `k`-th committed value, or the
/// constant one.
#[derive(Clone, Copy, Debug, PartialEq, Eq, Structural)]
pub enum Variable {
    Committed(usize),
    One,
}

/// `sum of coefficient * variable` over its terms.
#[derive(Debug)]
pub struct LinearCombination {
    pub terms: Vec<(Variable, i64)>,
}

/// The value of a variable once committed variable `k` is opened to `env[k]`.
pub open spec fn var_value(v: Variable, env: Seq<int>) -> int {
    match v {
        Variable::Committed(k) => if k < env.len() {
            env[k as int]
        } else {
            0
        },
        Variable::One => 1,
    }
}

/// The value of a list of terms under an opening `env`.
pub open spec fn terms_eval(ts: Seq<(Variable, int)>, env: Seq<int>) -> int
    decreases ts.len(),
{
    if ts.len() == 0 {
        0
    } else {
        terms_eval(ts.drop_last(), env) + ts.last().1 * var_value(ts.last().0, env)
    }
}

/// The terms with their coefficients read as integers.
pub open spec fn terms_model(ts: Seq<(Variable, i64)>) -> Seq<(Variable, int)> {
    ts.map_values(|t: (Variable, i64)| (t.0, t.1 as int))
}

pub open spec fn neg_terms(ts: Seq<(Variable, int)>) -> Seq<(Variable, int)> {
    ts.map_values(|t: (Variable, int)| (t.0, -t.1))
}

pub open spec fn scale_terms(ts: Seq<(Variable, int)>, s: int) -> Seq<(Variable, int)> {
    ts.map_values(|t: (Variable, int)| (t.0, t.1 * s))
}

proof fn lemma_terms_eval_concat(a: Seq<(Variable, int)>, b: Seq<(Variable, int)>, env: Seq<int>)
    ensures
        terms_eval(a + b, env) == terms_eval(a, env) + terms_eval(b, env),
    decreases b.len(),
{
    if b.len() == 0 {
        assert(a + b =~= a);
    } else {
        assert((a + b).drop_last() =~= a + b.drop_last());
        lemma_terms_eval_concat(a, b.drop_last(), env);
    }
}

proof fn lemma_terms_eval_neg(a: Seq<(Variable, int)>, env: Seq<int>)
    ensures
        terms_eval(neg_terms(a), env) == -terms_eval(a, env),
    decreases a.len(),
{
    if a.len() > 0 {
        assert(neg_terms(a).drop_last() =~= neg_terms(a.drop_last()));
        lemma_terms_eval_neg(a.drop_last(), env);
        let c = a.last().1;
        let x = var_value(a.last().0, env);
        assert((-c) * x == -(c * x)) by (nonlinear_arith);
    }
}

proof fn lemma_terms_eval_scale(a: Seq<(Variable, int)>, s: int, env: Seq<int>)
    ensures
        terms_eval(scale_terms(a, s), env) == terms_eval(a, env) * s,
    decreases a.len(),
{
    if a.len() > 0 {
        assert(scale_terms(a, s).drop_last() =~= scale_terms(a.drop_last(), s));
        lemma_terms_eval_scale(a.drop_last(), s, env);
        let c = a.last().1;
        let x = var_value(a.last().0, env);
        let t = terms_eval(a.drop_last(), env);
        assert((c * s) * x == (c * x) * s) by (nonlinear_arith);
        assert((t + c * x) * s == t * s + (c * x) * s) by (nonlinear_arith);
    }
}

/// The opening `env` read as integers.
pub open spec fn env_ints(env: Seq<i64>) -> Seq<int> {
    env.map_values(|x: i64| x as int)
}

impl LinearCombination {
    /// The value of the combination when committed variable `k` opens to
    /// `env[k]` (a variable past the end of `env` opens to zero); `None` where
    /// a partial sum leaves the signed 64-bit range.
    pub fn evaluate(&self, env: &Vec<i64>) -> (r: Option<i64>)
        ensures
            r matches Some(v) ==> v as int == terms_eval(self.model(), env_ints(env@)),
    {
        let ghost e = env_ints(env@);
        let mut acc: i64 = 0;
        let mut i: usize = 0;
        while i < self.terms.len()
            invariant
                i <= self.terms.len(),
                e == env_ints(env@),
                acc as int == terms_eval(terms_model(self.terms@.subrange(0, i as int)), e),
            decreases self.terms.len() - i,
        {
            let (v, c) = self.terms[i];
            let x: i64 = match v {
                Variable::Committed(k) => if k < env.len() {
                    env[k]
                } else {
                    0
                },
                Variable::One => 1,
            };
            proof {
                assert(terms_model(self.terms@.subrange(0, i + 1)).drop_last() =~= terms_model(
                    self.terms@.subrange(0, i as int),
                ));
                assert(x as int == var_value(v, e));
            }
            let term = match c.checked_mul(x) {
                Some(t) => t,
                None => {
                    return None;
                },
            };
            acc = match acc.checked_add(term) {
                Some(a) => a,
                None => {
                    return None;
                },
            };
            i = i + 1;
        }
        proof {
            assert(self.terms@.subrange(0, self.terms.len() as int) =~= self.terms@);
        }
        Some(acc)
    }

    /// The combination `1 * v`.
    pub fn from_variable(v: Variable) -> (r: LinearCombination)
        ensures
            r.model() == seq![(v, 1int)],
    {
        let mut terms: Vec<(Variable, i64)> = Vec::new();
        terms.push((v, 1i64));
        let r = LinearCombination { terms };
        assert(r.model() =~= seq![(v, 1int)]);
        r
    }

    /// The constant combination `c * One`.
    pub fn from_constant(c: i64) -> (r: LinearCombination)
        ensures
            r.model() == seq![(Variable::One, c as int)],
    {
        let mut terms: Vec<(Variable, i64)> = Vec::new();
        terms.push((Variable::One, c));
        let r = LinearCombination { terms };
        assert(r.model() =~= seq![(Variable::One, c as int)]);
        r
    }

    /// `self - o`, failing where a coefficient of `o` cannot be negated.
    pub fn sub(&self, o: &LinearCombination) -> (r: Option<LinearCombination>)
        ensures
            match r {
                Some(v) => LinearCombination::m_neg(o.model()) is Some && v.model() == self.model()
                    + LinearCombination::m_neg(o.model())->0,
                None => LinearCombination::m_neg(o.model()) is None,
            },
            r matches Some(v) ==> forall|env: Seq<int>|
                #[trigger] terms_eval(v.model(), env) == terms_eval(self.model(), env)
                    - terms_eval(o.model(), env),
    {
        match o.neg() {
            None => None,
            Some(n) => {
                let s = self.add(&n);
                proof {
                    assert forall|env: Seq<int>|
                        #[trigger] terms_eval(s->0.model(), env) == terms_eval(self.model(), env)
                            - terms_eval(o.model(), env) by {
                        lemma_terms_eval_concat(self.model(), n.model(), env);
                        lemma_terms_eval_neg(o.model(), env);
                    }
                }
                s
            },
        }
    }
}

impl ZKPNLCalculable for LinearCombination {
    type Model = Seq<(Variable, int)>;

    open spec fn model(&self) -> Seq<(Variable, int)> {
        terms_model(self.terms@)
    }

    open spec fn m_zero() -> Seq<(Variable, int)> {
        Seq::empty()
    }

    open spec fn m_add(a: Seq<(Variable, int)>, b: Seq<(Variable, int)>) -> Option<
        Seq<(Variable, int)>,
    > {
        Some(a + b)
    }

    open spec fn m_neg(a: Seq<(Variable, int)>) -> Option<Seq<(Variable, int)>> {
        if forall|i: int| 0 <= i < a.len() ==> fits_i64(-#[trigger] a[i].1) {
            Some(neg_terms(a))
        } else {
            None
        }
    }

    open spec fn m_scale(a: Seq<(Variable, int)>, s: i64) -> Option<Seq<(Variable, int)>> {
        if forall|i: int| 0 <= i < a.len() ==> fits_i64(#[trigger] a[i].1 * s) {
            Some(scale_terms(a, s as int))
        } else {
            None
        }
    }

    open spec fn m_eval(a: Seq<(Variable, int)>, env: Seq<int>) -> int {
        terms_eval(a, env)
    }

    proof fn lemma_zero(env: Seq<int>) {
    }

    proof fn lemma_add(a: Seq<(Variable, int)>, b: Seq<(Variable, int)>, env: Seq<int>) {
        lemma_terms_eval_concat(a, b, env);
    }

    proof fn lemma_neg(a: Seq<(Variable, int)>, env: Seq<int>) {
        lemma_terms_eval_neg(a, env);
    }

    proof fn lemma_scale(a: Seq<(Variable, int)>, s: i64, env: Seq<int>) {
        lemma_terms_eval_scale(a, s as int, env);
    }

    fn zero() -> (r: LinearCombination) {
        let r = LinearCombination { terms: Vec::new() };
        assert(r.model() =~= Seq::<(Variable, int)>::empty());
        r
    }

    fn add(&self, o: &LinearCombination) -> (r: Option<LinearCombination>) {
        let mut terms: Vec<(Variable, i64)> = Vec::new();
        let mut i: usize = 0;
        while i < self.terms.len()
            invariant
                i <= self.terms.len(),
                terms@ =~= self.terms@.subrange(0, i as int),
            decreases self.terms.len() - i,
        {
            terms.push(self.terms[i]);
            i = i + 1;
        }
        let mut j: usize = 0;
        while j < o.terms.len()
            invariant
                j <= o.terms.len(),
                terms@ =~= self.terms@ + o.terms@.subrange(0, j as int),
            decreases o.terms.len() - j,
        {
            terms.push(o.terms[j]);
            j = j + 1;
        }
        assert(o.terms@.subrange(0, o.terms.len() as int) =~= o.terms@);
        let r = LinearCombination { terms };
        assert(r.model() =~= self.model() + o.model());
        Some(r)
    }

    fn neg(&self) -> (r: Option<LinearCombination>) {
        let mut terms: Vec<(Variable, i64)> = Vec::new();
        let mut i: usize = 0;
        while i < self.terms.len()
            invariant
                i <= self.terms.len(),
                terms@.len() == i,
                forall|k: int| 0 <= k < i ==> fits_i64(-(#[trigger] self.terms@[k]).1),
                forall|k: int|
                    0 <= k < i ==> #[trigger] terms@[k] == (self.terms@[k].0, (-self.terms@[k].1) as i64),
            decreases self.terms.len() - i,
        {
            let (v, c) = self.terms[i];
            if c == i64::MIN {
                proof {
                    assert(self.model()[i as int].1 == c);
                    assert(!fits_i64(-self.model()[i as int].1));
                }
                return None;
            }
            terms.push((v, -c));
            i = i + 1;
        }
        let r = LinearCombination { terms };
        assert(r.model() =~= neg_terms(self.model()));
        Some(r)
    }

    fn scale(&self, s: i64) -> (r: Option<LinearCombination>) {
        let mut terms: Vec<(Variable, i64)> = Vec::new();
        let mut i: usize = 0;
        while i < self.terms.len()
            invariant
                i <= self.terms.len(),
                terms@.len() == i,
                forall|k: int| 0 <= k < i ==> fits_i64((#[trigger] self.terms@[k]).1 * s),
                forall|k: int|
                    0 <= k < i ==> #[trigger] terms@[k] == (self.terms@[k].0, (self.terms@[k].1 * s) as i64),
            decreases self.terms.len() - i,
        {
            let (v, c) = self.terms[i];
            match c.checked_mul(s) {
                None => {
                    proof {
                        assert(self.model()[i as int].1 == c);
                        assert(!fits_i64(self.model()[i as int].1 * s));
                    }
                    return None;
                },
                Some(p) => {
                    terms.push((v, p));
                },
            }
            i = i + 1;
        }
        let r = LinearCombination { terms };
        assert(r.model() =~= scale_terms(self.model(), s as int));
        Some(r)
    }

    fn duplicate(&self) -> (r: LinearCombination) {
        let mut terms: Vec<(Variable, i64)> = Vec::new();
        let mut i: usize = 0;
        while i < self.terms.len()
            invariant
                i <= self.terms.len(),
                terms@ =~= self.terms@.subrange(0, i as int),
            decreases self.terms.len() - i,
        {
            terms.push(self.terms[i]);
            i = i + 1;
        }
        let r = LinearCombination { terms };
        assert(r.terms@ =~= self.terms@);
        r
    }
}

} // verus!

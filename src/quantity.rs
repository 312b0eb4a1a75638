//! The quantity algebra: values that can be added, negated and multiplied by an
//! integer scalar. The P&L formulas are written once against this interface and
//! run on plaintext integers and on linear combinations over committed variables.
use vstd::prelude::*;

verus! {

/// Smallest value of a signed 64-bit integer, as a mathematical integer.
pub open spec fn i64_min() -> int {
    -0x8000_0000_0000_0000
}

/// Largest value of a signed 64-bit integer, as a mathematical integer.
pub open spec fn i64_max() -> int {
    0x7FFF_FFFF_FFFF_FFFF
}

/// Whether `x` can be held by an `i64`.
pub open spec fn fits_i64(x: int) -> bool {
    i64_min() <= x <= i64_max()
}

/// A value of the P&L algebra.
///
/// `Model` is the mathematical content of a value; every operation is described
/// on models, and may fail (`None`) where the representation cannot hold the
/// result. `eval` reads a model as an integer once each committed variable `k`
/// is opened to `env[k]`; the proof functions state that the operations are
/// addition, negation and scaling of that integer.
pub trait ZKPNLCalculable: Sized {
    type Model;

    spec fn model(&self) -> Self::Model;

    spec fn m_zero() -> Self::Model;

    spec fn m_add(a: Self::Model, b: Self::Model) -> Option<Self::Model>;

    spec fn m_neg(a: Self::Model) -> Option<Self::Model>;

    spec fn m_scale(a: Self::Model, s: i64) -> Option<Self::Model>;

    spec fn m_eval(a: Self::Model, env: Seq<int>) -> int;

    proof fn lemma_zero(env: Seq<int>)
        ensures
            Self::m_eval(Self::m_zero(), env) == 0,
    ;

    proof fn lemma_add(a: Self::Model, b: Self::Model, env: Seq<int>)
        requires
            Self::m_add(a, b) is Some,
        ensures
            Self::m_eval(Self::m_add(a, b)->0, env) == Self::m_eval(a, env) + Self::m_eval(b, env),
    ;

    proof fn lemma_neg(a: Self::Model, env: Seq<int>)
        requires
            Self::m_neg(a) is Some,
        ensures
            Self::m_eval(Self::m_neg(a)->0, env) == -Self::m_eval(a, env),
    ;

    proof fn lemma_scale(a: Self::Model, s: i64, env: Seq<int>)
        requires
            Self::m_scale(a, s) is Some,
        ensures
            Self::m_eval(Self::m_scale(a, s)->0, env) == Self::m_eval(a, env) * s,
    ;

    fn zero() -> (r: Self)
        ensures
            r.model() == Self::m_zero(),
    ;

    fn add(&self, o: &Self) -> (r: Option<Self>)
        ensures
            match r {
                Some(v) => Self::m_add(self.model(), o.model()) == Some(v.model()),
                None => Self::m_add(self.model(), o.model()) is None,
            },
    ;

    fn neg(&self) -> (r: Option<Self>)
        ensures
            match r {
                Some(v) => Self::m_neg(self.model()) == Some(v.model()),
                None => Self::m_neg(self.model()) is None,
            },
    ;

    fn scale(&self, s: i64) -> (r: Option<Self>)
        ensures
            match r {
                Some(v) => Self::m_scale(self.model(), s) == Some(v.model()),
                None => Self::m_scale(self.model(), s) is None,
            },
    ;

    fn duplicate(&self) -> (r: Self)
        ensures
            r.model() == self.model(),
    ;
}

/// Plaintext quantities: exact signed 64-bit arithmetic, failing on overflow.
impl ZKPNLCalculable for i64 {
    type Model = int;

    open spec fn model(&self) -> int {
        *self as int
    }

    open spec fn m_zero() -> int {
        0
    }

    open spec fn m_add(a: int, b: int) -> Option<int> {
        if fits_i64(a + b) {
            Some(a + b)
        } else {
            None
        }
    }

    open spec fn m_neg(a: int) -> Option<int> {
        if fits_i64(-a) {
            Some(-a)
        } else {
            None
        }
    }

    open spec fn m_scale(a: int, s: i64) -> Option<int> {
        if fits_i64(a * s) {
            Some(a * s)
        } else {
            None
        }
    }

    open spec fn m_eval(a: int, env: Seq<int>) -> int {
        a
    }

    proof fn lemma_zero(env: Seq<int>) {
    }

    proof fn lemma_add(a: int, b: int, env: Seq<int>) {
    }

    proof fn lemma_neg(a: int, env: Seq<int>) {
    }

    proof fn lemma_scale(a: int, s: i64, env: Seq<int>) {
    }

    fn zero() -> (r: i64) {
        0
    }

    fn add(&self, o: &i64) -> (r: Option<i64>) {
        self.checked_add(*o)
    }

    fn neg(&self) -> (r: Option<i64>) {
        if *self == i64::MIN {
            None
        } else {
            Some(-*self)
        }
    }

    fn scale(&self, s: i64) -> (r: Option<i64>) {
        self.checked_mul(s)
    }

    fn duplicate(&self) -> (r: i64) {
        *self
    }
}

} // verus!

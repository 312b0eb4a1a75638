//! The constraint system of a P&L proof.
//!
//! The committed variables are, in this order: the quantity of each record of
//! the period (in log order), the size of each position of the previous
//! portfolio, and the size of each position of the current portfolio. The book
//! arithmetic is run over linear combinations of those variables, exactly as
//! it is run over plaintext integers for the ledger, and each constraint
//! asserts that a combination is zero: the total P&L equals the published one,
//! and each committed current size equals the sum of its symbol's trades.
use vstd::prelude::*;
use crate::book::{
    all_priced, all_symbols_priced, calc_portfolio, calc_total_pnl, inherit_portfolio, qty_sum,
    price_or_zero, spec_inherit, spec_size, spec_total_pnl, total_pnl_value,
};
use crate::lincomb::{terms_eval, var_value, LinearCombination, Variable};
use crate::maps::{
    find_sym, find_symbol, keys_of, lemma_find_sym, spec_append, string_keys, PortMap, PriceMap,
    TradeMap,
};
use crate::model::BlindedRecord;
use crate::quantity::{fits_i64, ZKPNLCalculable};

verus! {

/// Why a circuit cannot be built.
#[derive(Clone, Copy, Debug, PartialEq, Eq, Structural)]
pub enum CircuitError {
    /// A symbol has no market price.
    MissingPrice,
    /// A symbol of the current portfolio has no trades.
    UnknownSymbol,
    /// A coefficient left the signed 64-bit range.
    Overflow,
}

/// The linear combination `1 * committed variable k`.
pub open spec fn var_term(k: int) -> Seq<(Variable, int)> {
    seq![(Variable::Committed(k as usize), 1int)]
}

/// The trade map of the period's records over their committed quantities:
/// record `k` trades variable `k` at its published price.
pub open spec fn records_lc_map(rs: Seq<BlindedRecord>) -> Seq<
    (Seq<char>, Seq<(i64, Seq<(Variable, int)>)>),
>
    decreases rs.len(),
{
    if rs.len() == 0 {
        Seq::empty()
    } else {
        let r = rs.last();
        spec_append(
            records_lc_map(rs.drop_last()),
            r.msg.symbol@,
            (r.msg.price, var_term(rs.len() - 1)),
        )
    }
}

/// The previous portfolio over its committed sizes: position `j` is variable
/// `base + j`.
pub open spec fn port_vars(syms: Seq<String>, base: int) -> Seq<(Seq<char>, Seq<(Variable, int)>)> {
    Seq::new(syms.len(), |j: int| (syms[j]@, var_term(base + j)))
}

/// The period's trade map over committed variables: the records' trades, then
/// the previous positions as trades at the previous market prices.
pub open spec fn circuit_trade_map(
    rs: Seq<BlindedRecord>,
    prev_syms: Seq<String>,
    prev_prices: Seq<(Seq<char>, i64)>,
) -> Seq<(Seq<char>, Seq<(i64, Seq<(Variable, int)>)>)> {
    spec_inherit::<LinearCombination>(
        records_lc_map(rs),
        port_vars(prev_syms, rs.len() as int),
        prev_prices,
    )
}

/// The constraints of a proof; each asserts that its combination is zero.
pub struct PnlCircuit {
    pub constraints: Vec<LinearCombination>,
}

/// Builds the trade map of the records over their committed quantities.
fn commit_records(records: &[BlindedRecord]) -> (r: TradeMap<LinearCombination>)
    ensures
        r.view_m() == records_lc_map(records@),
        r.wf(),
{
    let mut m: TradeMap<LinearCombination> = TradeMap::new();
    let mut k: usize = 0;
    while k < records.len()
        invariant
            k <= records.len(),
            m.wf(),
            m.view_m() == records_lc_map(records@.subrange(0, k as int)),
        decreases records.len() - k,
    {
        proof {
            assert(records@.subrange(0, k + 1).drop_last() =~= records@.subrange(0, k as int));
        }
        let msg = &records[k].msg;
        m.push_trade(&msg.symbol, msg.price, LinearCombination::from_variable(Variable::Committed(k)));
        k = k + 1;
    }
    proof {
        assert(records@.subrange(0, records.len() as int) =~= records@);
    }
    m
}

/// The previous portfolio over its committed sizes, from variable `base` on.
fn commit_port(symbols: &Vec<String>, base: usize) -> (r: PortMap<LinearCombination>)
    requires
        base + symbols.len() <= usize::MAX,
    ensures
        r.view_m() == port_vars(symbols@, base as int),
{
    let mut entries: Vec<(String, LinearCombination)> = Vec::new();
    let mut j: usize = 0;
    while j < symbols.len()
        invariant
            j <= symbols.len(),
            base + symbols.len() <= usize::MAX,
            entries@.len() == j,
            forall|i: int|
                0 <= i < j ==> (#[trigger] entries@[i]).0@ == symbols@[i]@ && entries@[i].1.model()
                    == var_term(base + i),
        decreases symbols.len() - j,
    {
        let lc = LinearCombination::from_variable(Variable::Committed(base + j));
        entries.push((symbols[j].clone(), lc));
        j = j + 1;
    }
    let r = PortMap { entries };
    assert(r.view_m() =~= port_vars(symbols@, base as int));
    r
}

/// Every term of a combination has coefficient one.
pub open spec fn unit_terms(t: Seq<(Variable, int)>) -> bool {
    forall|k: int| 0 <= k < t.len() ==> (#[trigger] t[k]).1 == 1
}

/// Every trade of a trade map over committed variables is a single variable.
pub open spec fn unit_map(m: Seq<(Seq<char>, Seq<(i64, Seq<(Variable, int)>)>)>) -> bool {
    forall|i: int, j: int|
        0 <= i < m.len() && 0 <= j < m[i].1.len() ==> unit_terms(#[trigger] m[i].1[j].1)
}

proof fn lemma_append_unit(
    m: Seq<(Seq<char>, Seq<(i64, Seq<(Variable, int)>)>)>,
    sym: Seq<char>,
    t: (i64, Seq<(Variable, int)>),
)
    requires
        unit_map(m),
        unit_terms(t.1),
    ensures
        unit_map(spec_append(m, sym, t)),
{
    lemma_find_sym(keys_of(m), sym);
    let a = spec_append(m, sym, t);
    let i = find_sym(keys_of(m), sym);
    assert forall|x: int, j: int| 0 <= x < a.len() && 0 <= j < a[x].1.len() implies unit_terms(
        #[trigger] a[x].1[j].1,
    ) by {
        if i >= 0 {
            if x == i && j == m[i].1.len() {
            } else {
                assert(a[x].1[j] == m[x].1[j]);
            }
        } else if x < m.len() {
            assert(a[x] == m[x]);
        }
    }
}

proof fn lemma_records_unit(rs: Seq<BlindedRecord>)
    ensures
        unit_map(records_lc_map(rs)),
    decreases rs.len(),
{
    if rs.len() > 0 {
        lemma_records_unit(rs.drop_last());
        lemma_append_unit(
            records_lc_map(rs.drop_last()),
            rs.last().msg.symbol@,
            (rs.last().msg.price, var_term(rs.len() - 1)),
        );
    }
}

proof fn lemma_inherit_unit(
    m: Seq<(Seq<char>, Seq<(i64, Seq<(Variable, int)>)>)>,
    p: Seq<(Seq<char>, Seq<(Variable, int)>)>,
    prices: Seq<(Seq<char>, i64)>,
)
    requires
        unit_map(m),
        forall|j: int| 0 <= j < p.len() ==> unit_terms(#[trigger] p[j].1),
    ensures
        unit_map(spec_inherit::<LinearCombination>(m, p, prices)),
    decreases p.len(),
{
    if p.len() > 0 {
        assert forall|j: int| 0 <= j < p.drop_last().len() implies unit_terms(
            #[trigger] p.drop_last()[j].1,
        ) by {
            assert(p.drop_last()[j] == p[j]);
        }
        lemma_inherit_unit(m, p.drop_last(), prices);
        assert(unit_terms(p[p.len() - 1].1));
        lemma_append_unit(
            spec_inherit::<LinearCombination>(m, p.drop_last(), prices),
            p.last().0,
            (price_or_zero(prices, p.last().0), p.last().1),
        );
    }
}

proof fn lemma_size_unit(ts: Seq<(i64, Seq<(Variable, int)>)>)
    requires
        forall|j: int| 0 <= j < ts.len() ==> unit_terms(#[trigger] ts[j].1),
    ensures
        spec_size::<LinearCombination>(ts) is Some,
        unit_terms(spec_size::<LinearCombination>(ts)->0),
        LinearCombination::m_neg(spec_size::<LinearCombination>(ts)->0) is Some,
    decreases ts.len(),
{
    if ts.len() > 0 {
        assert forall|j: int| 0 <= j < ts.drop_last().len() implies unit_terms(
            #[trigger] ts.drop_last()[j].1,
        ) by {
            assert(ts.drop_last()[j] == ts[j]);
        }
        lemma_size_unit(ts.drop_last());
        assert(unit_terms(ts[ts.len() - 1].1));
        let a = spec_size::<LinearCombination>(ts.drop_last())->0;
        let b = ts.last().1;
        assert(unit_terms(a + b)) by {
            assert forall|k: int| 0 <= k < (a + b).len() implies (#[trigger] (a + b)[k]).1 == 1 by {
                if k < a.len() {
                    assert((a + b)[k] == a[k]);
                } else {
                    assert((a + b)[k] == b[k - a.len()]);
                }
            }
        }
    }
    let x = spec_size::<LinearCombination>(ts)->0;
    assert forall|i: int| 0 <= i < x.len() implies fits_i64(-#[trigger] x[i].1) by {
        assert(x[i].1 == 1);
    }
}

/// Every trade of the circuit's trade map is a single committed variable, so
/// every position size is defined and can be negated.
proof fn lemma_circuit_map_unit(
    rs: Seq<BlindedRecord>,
    prev_syms: Seq<String>,
    prev_prices: Seq<(Seq<char>, i64)>,
)
    ensures
        ({
            let m = circuit_trade_map(rs, prev_syms, prev_prices);
            forall|i: int|
                0 <= i < m.len() ==> (#[trigger] spec_size::<LinearCombination>(m[i].1)) is Some
                    && LinearCombination::m_neg(spec_size::<LinearCombination>(m[i].1)->0) is Some
        }),
{
    lemma_records_unit(rs);
    let p = port_vars(prev_syms, rs.len() as int);
    assert forall|j: int| 0 <= j < p.len() implies unit_terms(#[trigger] p[j].1) by {}
    lemma_inherit_unit(records_lc_map(rs), p, prev_prices);
    let m = circuit_trade_map(rs, prev_syms, prev_prices);
    assert forall|i: int| 0 <= i < m.len() implies (#[trigger] spec_size::<LinearCombination>(
        m[i].1,
    )) is Some && LinearCombination::m_neg(spec_size::<LinearCombination>(m[i].1)->0) is Some by {
        assert forall|j: int| 0 <= j < m[i].1.len() implies unit_terms(#[trigger] m[i].1[j].1) by {}
        lemma_size_unit(m[i].1);
    }
}

/// No trade of a trade map is priced at the one value whose negation
/// overflows.
pub open spec fn prices_negatable(m: Seq<(Seq<char>, Seq<(i64, Seq<(Variable, int)>)>)>) -> bool {
    forall|i: int, j: int|
        0 <= i < m.len() && 0 <= j < m[i].1.len() ==> (#[trigger] m[i].1[j]).0 != i64::MIN
}

proof fn lemma_append_negatable(
    m: Seq<(Seq<char>, Seq<(i64, Seq<(Variable, int)>)>)>,
    sym: Seq<char>,
    t: (i64, Seq<(Variable, int)>),
)
    requires
        prices_negatable(m),
        t.0 != i64::MIN,
    ensures
        prices_negatable(spec_append(m, sym, t)),
{
    lemma_find_sym(keys_of(m), sym);
    let a = spec_append(m, sym, t);
    let i = find_sym(keys_of(m), sym);
    assert forall|x: int, j: int| 0 <= x < a.len() && 0 <= j < a[x].1.len() implies (
    #[trigger] a[x].1[j]).0 != i64::MIN by {
        if i >= 0 {
            if x == i && j == m[i].1.len() {
            } else {
                assert(a[x].1[j] == m[x].1[j]);
            }
        } else if x < m.len() {
            assert(a[x] == m[x]);
        }
    }
}

proof fn lemma_records_negatable(rs: Seq<BlindedRecord>)
    requires
        forall|k: int| 0 <= k < rs.len() ==> (#[trigger] rs[k]).msg.price != i64::MIN,
    ensures
        prices_negatable(records_lc_map(rs)),
    decreases rs.len(),
{
    if rs.len() > 0 {
        assert forall|k: int| 0 <= k < rs.drop_last().len() implies (
        #[trigger] rs.drop_last()[k]).msg.price != i64::MIN by {
            assert(rs.drop_last()[k] == rs[k]);
        }
        lemma_records_negatable(rs.drop_last());
        assert(rs.last() == rs[rs.len() - 1]);
        lemma_append_negatable(
            records_lc_map(rs.drop_last()),
            rs.last().msg.symbol@,
            (rs.last().msg.price, var_term(rs.len() - 1)),
        );
    }
}

proof fn lemma_inherit_negatable(
    m: Seq<(Seq<char>, Seq<(i64, Seq<(Variable, int)>)>)>,
    p: Seq<(Seq<char>, Seq<(Variable, int)>)>,
    prices: Seq<(Seq<char>, i64)>,
)
    requires
        prices_negatable(m),
        forall|k: int| 0 <= k < prices.len() ==> (#[trigger] prices[k]).1 != i64::MIN,
    ensures
        prices_negatable(spec_inherit::<LinearCombination>(m, p, prices)),
    decreases p.len(),
{
    if p.len() > 0 {
        lemma_inherit_negatable(m, p.drop_last(), prices);
        lemma_find_sym(keys_of(prices), p.last().0);
        lemma_append_negatable(
            spec_inherit::<LinearCombination>(m, p.drop_last(), prices),
            p.last().0,
            (price_or_zero(prices, p.last().0), p.last().1),
        );
    }
}

proof fn lemma_cash_some(ts: Seq<(i64, Seq<(Variable, int)>)>)
    requires
        forall|j: int| 0 <= j < ts.len() ==> unit_terms(#[trigger] ts[j].1),
        forall|j: int| 0 <= j < ts.len() ==> (#[trigger] ts[j]).0 != i64::MIN,
    ensures
        crate::book::spec_cash_balance::<LinearCombination>(ts) is Some,
    decreases ts.len(),
{
    if ts.len() > 0 {
        assert forall|j: int| 0 <= j < ts.drop_last().len() implies unit_terms(
            #[trigger] ts.drop_last()[j].1,
        ) && ts.drop_last()[j].0 != i64::MIN by {
            assert(ts.drop_last()[j] == ts[j]);
        }
        lemma_cash_some(ts.drop_last());
        let t = ts.last();
        assert(t == ts[ts.len() - 1]);
        assert forall|k: int| 0 <= k < t.1.len() implies fits_i64(-#[trigger] t.1[k].1) by {
            assert(unit_terms(t.1));
        }
        let n = crate::lincomb::neg_terms(t.1);
        assert forall|k: int| 0 <= k < n.len() implies fits_i64(#[trigger] n[k].1 * t.0) by {
            assert(unit_terms(t.1));
            assert(n[k].1 == -1);
        }
    }
}

proof fn lemma_total_some(
    m: Seq<(Seq<char>, Seq<(i64, Seq<(Variable, int)>)>)>,
    market: Seq<(Seq<char>, i64)>,
)
    requires
        unit_map(m),
        prices_negatable(m),
        crate::book::all_priced(keys_of(m), market),
    ensures
        spec_total_pnl::<LinearCombination>(m, market) is Some,
    decreases m.len(),
{
    if m.len() > 0 {
        let d = m.drop_last();
        assert(unit_map(d) && prices_negatable(d)) by {
            assert forall|i: int, j: int| 0 <= i < d.len() && 0 <= j < d[i].1.len() implies unit_terms(
                #[trigger] d[i].1[j].1,
            ) && d[i].1[j].0 != i64::MIN by {
                assert(d[i] == m[i]);
                assert(unit_terms(m[i].1[j].1));
                assert(m[i].1[j].0 != i64::MIN);
            }
        }
        assert(crate::book::all_priced(keys_of(d), market)) by {
            assert forall|i: int| 0 <= i < keys_of(d).len() implies (#[trigger] crate::maps::price_of(
                market,
                keys_of(d)[i],
            )) is Some by {
                assert(keys_of(d)[i] == keys_of(m)[i]);
            }
        }
        lemma_total_some(d, market);
        let ts = m.last().1;
        assert(m.last() == m[m.len() - 1]);
        assert(keys_of(m)[m.len() - 1] == m.last().0);
        assert forall|j: int| 0 <= j < ts.len() implies unit_terms(#[trigger] ts[j].1)
            && ts[j].0 != i64::MIN by {
            assert(unit_terms(m[m.len() - 1].1[j].1));
            assert(m[m.len() - 1].1[j].0 != i64::MIN);
        }
        lemma_cash_some(ts);
        lemma_size_unit(ts);
        let sz = spec_size::<LinearCombination>(ts)->0;
        let mp = crate::maps::price_of(market, m.last().0)->0;
        assert forall|k: int| 0 <= k < sz.len() implies fits_i64(#[trigger] sz[k].1 * mp) by {
            assert(sz[k].1 == 1);
        }
    }
}

/// Building the circuit succeeds on a well-formed period: every symbol of
/// the previous portfolio has a previous price and every traded symbol a
/// market price, no record or previous price is `i64::MIN` (prices are never
/// negative), the published P&L is not `i64::MIN`, and every current position
/// is a traded symbol.
pub proof fn lemma_circuit_builds(
    rs: Seq<BlindedRecord>,
    prev_syms: Seq<String>,
    prev_prices: Seq<(Seq<char>, i64)>,
    curt_syms: Seq<String>,
    market: Seq<(Seq<char>, i64)>,
    pnl: i64,
)
    requires
        crate::book::all_priced(keys_of(port_vars(prev_syms, rs.len() as int)), prev_prices),
        crate::book::all_priced(keys_of(circuit_trade_map(rs, prev_syms, prev_prices)), market),
        forall|k: int| 0 <= k < rs.len() ==> (#[trigger] rs[k]).msg.price != i64::MIN,
        forall|k: int| 0 <= k < prev_prices.len() ==> (#[trigger] prev_prices[k]).1 != i64::MIN,
        pnl != i64::MIN,
        forall|j: int|
            0 <= j < curt_syms.len() ==> find_sym(
                keys_of(circuit_trade_map(rs, prev_syms, prev_prices)),
                #[trigger] curt_syms[j]@,
            ) >= 0,
    ensures
        circuit_outcome(rs, prev_syms, prev_prices, curt_syms, market, pnl) == Ok::<(), CircuitError>(()),
{
    lemma_records_unit(rs);
    lemma_records_negatable(rs);
    let p = port_vars(prev_syms, rs.len() as int);
    assert forall|j: int| 0 <= j < p.len() implies unit_terms(#[trigger] p[j].1) by {}
    lemma_inherit_unit(records_lc_map(rs), p, prev_prices);
    lemma_inherit_negatable(records_lc_map(rs), p, prev_prices);
    lemma_total_some(circuit_trade_map(rs, prev_syms, prev_prices), market);
}

/// Which way building a circuit ends: `Ok(())` or the error it fails with.
pub open spec fn circuit_outcome(
    rs: Seq<BlindedRecord>,
    prev_syms: Seq<String>,
    prev_prices: Seq<(Seq<char>, i64)>,
    curt_syms: Seq<String>,
    market: Seq<(Seq<char>, i64)>,
    pnl: i64,
) -> Result<(), CircuitError> {
    let m = circuit_trade_map(rs, prev_syms, prev_prices);
    if !all_priced(keys_of(port_vars(prev_syms, rs.len() as int)), prev_prices) || !all_priced(
        keys_of(m),
        market,
    ) {
        Err(CircuitError::MissingPrice)
    } else if spec_total_pnl::<LinearCombination>(m, market) is None || pnl == i64::MIN {
        Err(CircuitError::Overflow)
    } else if exists|j: int|
        0 <= j < curt_syms.len() && find_sym(keys_of(m), #[trigger] curt_syms[j]@) < 0 {
        Err(CircuitError::UnknownSymbol)
    } else {
        Ok(())
    }
}

/// The constraints are the P&L constraint (total P&L minus `pnl`) followed by
/// one size constraint per current position (its committed size, variable
/// `n + p + j`, minus the sum of its symbol's trades).
pub open spec fn circuit_equations(
    cs: Seq<LinearCombination>,
    rs: Seq<BlindedRecord>,
    prev_syms: Seq<String>,
    prev_prices: Seq<(Seq<char>, i64)>,
    curt_syms: Seq<String>,
    market: Seq<(Seq<char>, i64)>,
    pnl: i64,
) -> bool {
    let n = rs.len() as int;
    let p = prev_syms.len() as int;
    let m = circuit_trade_map(rs, prev_syms, prev_prices);
    &&& cs.len() == curt_syms.len() + 1
    &&& forall|env: Seq<int>|
        #[trigger] terms_eval(cs[0].model(), env) == total_pnl_value::<LinearCombination>(
            m,
            market,
            env,
        ) - pnl
    &&& forall|j: int| 0 <= j < curt_syms.len() ==> find_sym(keys_of(m), #[trigger] curt_syms[j]@) >= 0
    &&& forall|j: int, env: Seq<int>|
        0 <= j < curt_syms.len() ==> #[trigger] terms_eval(cs[j + 1].model(), env) == var_value(
            Variable::Committed((n + p + j) as usize),
            env,
        ) - qty_sum::<LinearCombination>(m[find_sym(keys_of(m), curt_syms[j]@)].1, env)
}

/// `r` is what building the circuit gives: the constraints above where
/// building succeeds, and otherwise exactly the error of `circuit_outcome`.
pub open spec fn circuit_result(
    r: Result<PnlCircuit, CircuitError>,
    rs: Seq<BlindedRecord>,
    prev_syms: Seq<String>,
    prev_prices: Seq<(Seq<char>, i64)>,
    curt_syms: Seq<String>,
    market: Seq<(Seq<char>, i64)>,
    pnl: i64,
) -> bool {
    match r {
        Ok(c) => circuit_outcome(rs, prev_syms, prev_prices, curt_syms, market, pnl) == Ok::<
            (),
            CircuitError,
        >(()) && circuit_equations(
            c.constraints@,
            rs,
            prev_syms,
            prev_prices,
            curt_syms,
            market,
            pnl,
        ),
        Err(e) => circuit_outcome(rs, prev_syms, prev_prices, curt_syms, market, pnl) == Err::<
            (),
            CircuitError,
        >(e),
    }
}

/// Builds the constraint system that binds the committed quantities of the
/// period's `records`, the committed sizes of the previous portfolio
/// (`prev_symbols`, carried at `prev_prices`) and the committed sizes of the
/// current portfolio (`curt_symbols`) to the published fixed-point `pnl` at the
/// market prices `market`.
///
/// Under every opening `env` of the variables, the first constraint evaluates
/// to the period's total P&L minus `pnl`, and constraint `1 + j` to the
/// committed size of the current position `j` minus the sum of its symbol's
/// trades: all constraints are zero exactly when the published P&L and
/// portfolio are those of the opened trades.
pub fn build_pnl_circuit(
    records: &[BlindedRecord],
    prev_symbols: &Vec<String>,
    prev_prices: &PriceMap,
    curt_symbols: &Vec<String>,
    market: &PriceMap,
    pnl: i64,
) -> (r: Result<PnlCircuit, CircuitError>)
    requires
        records@.len() + prev_symbols@.len() + curt_symbols@.len() <= usize::MAX,
    ensures
        circuit_result(
            r,
            records@,
            prev_symbols@,
            prev_prices.view(),
            curt_symbols@,
            market.view(),
            pnl,
        ),
{
    let n = records.len();
    let p = prev_symbols.len();
    let mut lc_map = commit_records(records);
    let prev_port = commit_port(prev_symbols, n);
    if !inherit_portfolio(&prev_port, &mut lc_map, prev_prices) {
        return Err(CircuitError::MissingPrice);
    }
    let ghost m = lc_map.view_m();
    if !all_symbols_priced(&lc_map, market) {
        return Err(CircuitError::MissingPrice);
    }
    let lc_pnl = match calc_total_pnl(&lc_map, market) {
        Some(v) => v,
        None => {
            return Err(CircuitError::Overflow);
        },
    };
    let ghost k = seq![(Variable::One, pnl as int)];
    let pnl_constraint = match lc_pnl.sub(&LinearCombination::from_constant(pnl)) {
        Some(c) => c,
        None => {
            proof {
                assert(!fits_i64(-k[0].1));
            }
            return Err(CircuitError::Overflow);
        },
    };
    proof {
        assert(fits_i64(-k[0].1));
        lemma_circuit_map_unit(records@, prev_symbols@, prev_prices.view());
        assert forall|env: Seq<int>|
            #[trigger] terms_eval(pnl_constraint.model(), env) == total_pnl_value::<
                LinearCombination,
            >(m, market.view(), env) - pnl by {
            let k = seq![(Variable::One, pnl as int)];
            assert(k.drop_last() =~= Seq::<(Variable, int)>::empty());
            assert(terms_eval(k.drop_last(), env) == 0);
            assert(terms_eval(k, env) == pnl);
            assert(LinearCombination::m_eval(lc_pnl.model(), env) == total_pnl_value::<
                LinearCombination,
            >(m, market.view(), env));
        }
    }
    let expected = match calc_portfolio(&lc_map) {
        Some(e) => e,
        None => {
            return Err(CircuitError::Overflow);
        },
    };
    let mut constraints: Vec<LinearCombination> = Vec::new();
    constraints.push(pnl_constraint);
    let mut j: usize = 0;
    while j < curt_symbols.len()
        invariant
            j <= curt_symbols.len(),
            n == records@.len(),
            p == prev_symbols@.len(),
            n + p + curt_symbols@.len() <= usize::MAX,
            m == lc_map.view_m(),
            m == circuit_trade_map(records@, prev_symbols@, prev_prices.view()),
            all_priced(keys_of(port_vars(prev_symbols@, n as int)), prev_prices.view()),
            all_priced(keys_of(m), market.view()),
            crate::book::spec_total_pnl::<LinearCombination>(m, market.view()) is Some,
            pnl != i64::MIN,
            forall|i: int|
                0 <= i < m.len() ==> (#[trigger] spec_size::<LinearCombination>(m[i].1)) is Some
                    && LinearCombination::m_neg(spec_size::<LinearCombination>(m[i].1)->0) is Some,
            crate::book::is_portfolio_of::<LinearCombination>(expected.view_m(), m),
            constraints@.len() == j + 1,
            forall|env: Seq<int>|
                #[trigger] terms_eval(constraints@[0].model(), env) == total_pnl_value::<
                    LinearCombination,
                >(m, market.view(), env) - pnl,
            forall|i: int, env: Seq<int>|
                0 <= i < j ==> #[trigger] terms_eval(constraints@[i + 1].model(), env) == var_value(
                    Variable::Committed((n + p + i) as usize),
                    env,
                ) - qty_sum::<LinearCombination>(m[find_sym(keys_of(m), curt_symbols@[i]@)].1, env),
            forall|i: int|
                0 <= i < j ==> find_sym(keys_of(m), #[trigger] curt_symbols@[i]@) >= 0,
        decreases curt_symbols.len() - j,
    {
        proof {
            assert forall|i: int| 0 <= i < m.len() implies keys_of(m)[i] == string_keys(
                expected.entries@,
            )[i] by {
                assert(expected.view_m()[i] == (
                    expected.entries@[i].0@,
                    expected.entries@[i].1.model(),
                ));
            }
            assert(keys_of(m) =~= string_keys(expected.entries@));
            lemma_find_sym(keys_of(m), curt_symbols@[j as int]@);
        }
        let idx = match find_symbol(&expected.entries, &curt_symbols[j]) {
            Some(i) => i,
            None => {
                proof {
                    assert(find_sym(keys_of(m), curt_symbols@[j as int]@) < 0);
                }
                return Err(CircuitError::UnknownSymbol);
            },
        };
        let size = LinearCombination::from_variable(Variable::Committed(n + p + j));
        proof {
            assert(expected.view_m()[idx as int] == (
                expected.entries@[idx as int].0@,
                expected.entries@[idx as int].1.model(),
            ));
            assert(spec_size::<LinearCombination>(m[idx as int].1) is Some);
        }
        let c = match size.sub(&expected.entries[idx].1) {
            Some(c) => c,
            None => {
                proof {
                    assert(false);
                }
                return Err(CircuitError::Overflow);
            },
        };
        proof {
            let sz = m[idx as int].1;
            assert(expected.view_m()[idx as int].1 == expected.entries@[idx as int].1.model());
            assert forall|env: Seq<int>|
                #[trigger] terms_eval(c.model(), env) == var_value(
                    Variable::Committed((n + p + j) as usize),
                    env,
                ) - qty_sum::<LinearCombination>(sz, env) by {
                crate::book::lemma_size_value::<LinearCombination>(sz, env);
                let sm = size.model();
                assert(sm.drop_last() =~= Seq::<(Variable, int)>::empty());
                assert(terms_eval(sm.drop_last(), env) == 0);
                assert(sm.last() == (Variable::Committed((n + p + j) as usize), 1int));
                assert(terms_eval(sm, env) == terms_eval(sm.drop_last(), env) + sm.last().1 * var_value(
                    sm.last().0,
                    env,
                ));
                assert(terms_eval(size.model(), env) == var_value(
                    Variable::Committed((n + p + j) as usize),
                    env,
                ));
            }
        }
        constraints.push(c);
        j = j + 1;
    }
    Ok(PnlCircuit { constraints })
}

} // verus!

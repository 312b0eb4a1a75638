//! The circuit computes what the ledger computes: opened at the plaintext
//! quantities and sizes, the trade map over committed variables has the same
//! symbols, prices, position sizes and total P&L as the plaintext trade map.
use vstd::prelude::*;
use crate::book::{
    cash_sum, lemma_size_value, lemma_total_pnl_value, pnl_value, price_or_zero, qty_sum,
    spec_inherit, spec_size, spec_total_pnl, total_pnl_value,
};
use crate::digest::{genesis_link_ok, msg_hash_ok, strip_zwsp, zwsp, Verifiable};
use crate::ledger::{next_prev_hash, spec_record_qty};
use crate::maps::distinct_keys;
use crate::model::TradeType;
use crate::quantity::{fits_i64, ZKPNLCalculable};
use crate::circuit::{circuit_equations, circuit_trade_map, port_vars, records_lc_map, var_term};
use crate::lincomb::{terms_eval, var_value, LinearCombination, Variable};
use crate::maps::{find_sym, keys_of, lemma_find_sym, spec_append};
use crate::model::{BlindedRecord, Record};
use crate::collection::records_trade_map;

verus! {

/// The plaintext trade map of the period's records, record `k` trading
/// quantity `qs[k]` at its published price.
pub open spec fn opened_trade_map(rs: Seq<BlindedRecord>, qs: Seq<int>) -> Seq<
    (Seq<char>, Seq<(i64, int)>),
>
    decreases rs.len(),
{
    if rs.len() == 0 {
        Seq::empty()
    } else {
        spec_append(
            opened_trade_map(rs.drop_last(), qs),
            rs.last().msg.symbol@,
            (rs.last().msg.price, qs[rs.len() - 1]),
        )
    }
}

/// A plaintext portfolio: symbol `j` with size `sizes[j]`.
pub open spec fn opened_port(syms: Seq<String>, sizes: Seq<int>) -> Seq<(Seq<char>, int)> {
    Seq::new(syms.len(), |j: int| (syms[j]@, sizes[j]))
}

/// Trade lists with the same prices, whose committed quantities open to the
/// plaintext ones under `env`.
pub open spec fn lists_correspond(
    l: Seq<(i64, Seq<(Variable, int)>)>,
    li: Seq<(i64, int)>,
    env: Seq<int>,
) -> bool {
    &&& l.len() == li.len()
    &&& forall|j: int|
        0 <= j < l.len() ==> (#[trigger] l[j]).0 == li[j].0 && terms_eval(l[j].1, env) == li[j].1
}

/// Trade maps with the same symbols in the same order and corresponding lists.
pub open spec fn maps_correspond(
    ml: Seq<(Seq<char>, Seq<(i64, Seq<(Variable, int)>)>)>,
    mi: Seq<(Seq<char>, Seq<(i64, int)>)>,
    env: Seq<int>,
) -> bool {
    &&& ml.len() == mi.len()
    &&& forall|i: int|
        0 <= i < ml.len() ==> (#[trigger] ml[i]).0 == mi[i].0 && lists_correspond(
            ml[i].1,
            mi[i].1,
            env,
        )
}

proof fn lemma_lists_sums(
    l: Seq<(i64, Seq<(Variable, int)>)>,
    li: Seq<(i64, int)>,
    env: Seq<int>,
    env2: Seq<int>,
)
    requires
        lists_correspond(l, li, env),
    ensures
        qty_sum::<LinearCombination>(l, env) == qty_sum::<i64>(li, env2),
        cash_sum::<LinearCombination>(l, env) == cash_sum::<i64>(li, env2),
    decreases l.len(),
{
    if l.len() > 0 {
        assert(lists_correspond(l.drop_last(), li.drop_last(), env)) by {
            assert forall|j: int| 0 <= j < l.drop_last().len() implies (
            #[trigger] l.drop_last()[j]).0 == li.drop_last()[j].0 && terms_eval(
                l.drop_last()[j].1,
                env,
            ) == li.drop_last()[j].1 by {
                assert(l.drop_last()[j] == l[j]);
                assert(li.drop_last()[j] == li[j]);
            }
        }
        lemma_lists_sums(l.drop_last(), li.drop_last(), env, env2);
        assert(l.last() == l[l.len() - 1]);
    }
}

proof fn lemma_total_correspond(
    ml: Seq<(Seq<char>, Seq<(i64, Seq<(Variable, int)>)>)>,
    mi: Seq<(Seq<char>, Seq<(i64, int)>)>,
    prices: Seq<(Seq<char>, i64)>,
    env: Seq<int>,
    env2: Seq<int>,
)
    requires
        maps_correspond(ml, mi, env),
    ensures
        total_pnl_value::<LinearCombination>(ml, prices, env) == total_pnl_value::<i64>(
            mi,
            prices,
            env2,
        ),
    decreases ml.len(),
{
    if ml.len() > 0 {
        assert(maps_correspond(ml.drop_last(), mi.drop_last(), env)) by {
            assert forall|i: int| 0 <= i < ml.drop_last().len() implies (
            #[trigger] ml.drop_last()[i]).0 == mi.drop_last()[i].0 && lists_correspond(
                ml.drop_last()[i].1,
                mi.drop_last()[i].1,
                env,
            ) by {
                assert(ml.drop_last()[i] == ml[i]);
                assert(mi.drop_last()[i] == mi[i]);
            }
        }
        lemma_total_correspond(ml.drop_last(), mi.drop_last(), prices, env, env2);
        assert(ml.last() == ml[ml.len() - 1]);
        lemma_lists_sums(ml.last().1, mi.last().1, env, env2);
    }
}

proof fn lemma_append_correspond(
    ml: Seq<(Seq<char>, Seq<(i64, Seq<(Variable, int)>)>)>,
    mi: Seq<(Seq<char>, Seq<(i64, int)>)>,
    sym: Seq<char>,
    price: i64,
    lc: Seq<(Variable, int)>,
    v: int,
    env: Seq<int>,
)
    requires
        maps_correspond(ml, mi, env),
        terms_eval(lc, env) == v,
    ensures
        maps_correspond(spec_append(ml, sym, (price, lc)), spec_append(mi, sym, (price, v)), env),
{
    assert(keys_of(ml) =~= keys_of(mi)) by {
        assert forall|i: int| 0 <= i < ml.len() implies keys_of(ml)[i] == keys_of(mi)[i] by {
            assert(ml[i].0 == mi[i].0);
        }
    }
    lemma_find_sym(keys_of(ml), sym);
    let i = find_sym(keys_of(ml), sym);
    let al = spec_append(ml, sym, (price, lc));
    let ai = spec_append(mi, sym, (price, v));
    if i >= 0 {
        assert forall|k: int| 0 <= k < al.len() implies (#[trigger] al[k]).0 == ai[k].0
            && lists_correspond(al[k].1, ai[k].1, env) by {
            if k == i {
                let l = ml[i].1.push((price, lc));
                let li = mi[i].1.push((price, v));
                assert forall|j: int| 0 <= j < l.len() implies (#[trigger] l[j]).0 == li[j].0
                    && terms_eval(l[j].1, env) == li[j].1 by {
                    if j < ml[i].1.len() {
                        assert(ml[i].1[j] == l[j]);
                        assert(mi[i].1[j] == li[j]);
                    }
                }
            }
        }
    } else {
        assert forall|k: int| 0 <= k < al.len() implies (#[trigger] al[k]).0 == ai[k].0
            && lists_correspond(al[k].1, ai[k].1, env) by {
            if k == ml.len() {
                let l = seq![(price, lc)];
                let li = seq![(price, v)];
                assert(lists_correspond(l, li, env));
            } else {
                assert(al[k] == ml[k]);
                assert(ai[k] == mi[k]);
            }
        }
    }
}

proof fn lemma_records_correspond(rs: Seq<BlindedRecord>, qs: Seq<int>, env: Seq<int>)
    requires
        qs.len() >= rs.len(),
        rs.len() <= usize::MAX,
        env.len() >= rs.len(),
        forall|k: int| 0 <= k < rs.len() ==> #[trigger] env[k] == qs[k],
    ensures
        maps_correspond(records_lc_map(rs), opened_trade_map(rs, qs), env),
    decreases rs.len(),
{
    if rs.len() > 0 {
        let n = rs.len() - 1;
        assert forall|k: int| 0 <= k < rs.drop_last().len() implies #[trigger] env[k] == qs[k] by {
            assert(env[k] == qs[k]);
        }
        lemma_records_correspond(rs.drop_last(), qs, env);
        let t = var_term(n);
        assert(t.drop_last() =~= Seq::<(Variable, int)>::empty());
        assert(terms_eval(t.drop_last(), env) == 0);
        assert(terms_eval(t, env) == terms_eval(t.drop_last(), env) + t.last().1 * var_value(
            t.last().0,
            env,
        ));
        assert(var_value(Variable::Committed(n as usize), env) == env[n]);
        assert(env[n] == qs[n]);
        lemma_append_correspond(
            records_lc_map(rs.drop_last()),
            opened_trade_map(rs.drop_last(), qs),
            rs.last().msg.symbol@,
            rs.last().msg.price,
            t,
            qs[n],
            env,
        );
    }
}

proof fn lemma_inherit_correspond(
    ml: Seq<(Seq<char>, Seq<(i64, Seq<(Variable, int)>)>)>,
    mi: Seq<(Seq<char>, Seq<(i64, int)>)>,
    pl: Seq<(Seq<char>, Seq<(Variable, int)>)>,
    pi: Seq<(Seq<char>, int)>,
    prices: Seq<(Seq<char>, i64)>,
    env: Seq<int>,
)
    requires
        maps_correspond(ml, mi, env),
        pl.len() == pi.len(),
        forall|j: int|
            0 <= j < pl.len() ==> (#[trigger] pl[j]).0 == pi[j].0 && terms_eval(pl[j].1, env)
                == pi[j].1,
    ensures
        maps_correspond(
            spec_inherit::<LinearCombination>(ml, pl, prices),
            spec_inherit::<i64>(mi, pi, prices),
            env,
        ),
    decreases pl.len(),
{
    if pl.len() > 0 {
        assert forall|j: int| 0 <= j < pl.drop_last().len() implies (
        #[trigger] pl.drop_last()[j]).0 == pi.drop_last()[j].0 && terms_eval(
            pl.drop_last()[j].1,
            env,
        ) == pi.drop_last()[j].1 by {
            assert(pl.drop_last()[j] == pl[j]);
            assert(pi.drop_last()[j] == pi[j]);
        }
        lemma_inherit_correspond(ml, mi, pl.drop_last(), pi.drop_last(), prices, env);
        assert(pl.last() == pl[pl.len() - 1]);
        assert(pi.last() == pi[pi.len() - 1]);
        lemma_append_correspond(
            spec_inherit::<LinearCombination>(ml, pl.drop_last(), prices),
            spec_inherit::<i64>(mi, pi.drop_last(), prices),
            pl.last().0,
            price_or_zero(prices, pl.last().0),
            pl.last().1,
            pi.last().1,
            env,
        );
    }
}

/// The proof circuit computes the plaintext book. Open the committed quantity
/// of record `k` to `qs[k]` and the committed size of previous position `j` to
/// `sizes[j]`: then the circuit's trade map has the symbols of the plaintext
/// trade map (the records' trades, with the previous positions carried at the
/// previous prices) in the same order, each symbol's position opens to the
/// plaintext size, and the total P&L opens to the plaintext total P&L at any
/// market prices.
pub proof fn lemma_circuit_opens_to_plaintext(
    rs: Seq<BlindedRecord>,
    qs: Seq<int>,
    prev_syms: Seq<String>,
    sizes: Seq<int>,
    prev_prices: Seq<(Seq<char>, i64)>,
    market: Seq<(Seq<char>, i64)>,
    env: Seq<int>,
)
    requires
        qs.len() == rs.len(),
        sizes.len() == prev_syms.len(),
        rs.len() + prev_syms.len() <= usize::MAX,
        env.len() >= rs.len() + prev_syms.len(),
        forall|k: int| 0 <= k < rs.len() ==> #[trigger] env[k] == qs[k],
        forall|j: int| 0 <= j < sizes.len() ==> #[trigger] env[rs.len() + j] == sizes[j],
    ensures
        ({
            let ml = circuit_trade_map(rs, prev_syms, prev_prices);
            let mi = spec_inherit::<i64>(
                opened_trade_map(rs, qs),
                opened_port(prev_syms, sizes),
                prev_prices,
            );
            &&& keys_of(ml) == keys_of(mi)
            &&& forall|i: int|
                0 <= i < ml.len() ==> #[trigger] qty_sum::<LinearCombination>(ml[i].1, env)
                    == qty_sum::<i64>(mi[i].1, env)
            &&& total_pnl_value::<LinearCombination>(ml, market, env) == total_pnl_value::<i64>(
                mi,
                market,
                env,
            )
        }),
{
    lemma_records_correspond(rs, qs, env);
    let pl = port_vars(prev_syms, rs.len() as int);
    let pi = opened_port(prev_syms, sizes);
    assert forall|j: int| 0 <= j < pl.len() implies (#[trigger] pl[j]).0 == pi[j].0 && terms_eval(
        pl[j].1,
        env,
    ) == pi[j].1 by {
        let t = var_term(rs.len() + j);
        assert(pl[j].1 == t);
        assert(((rs.len() + j) as usize) as int == rs.len() + j);
        assert(t.drop_last() =~= Seq::<(Variable, int)>::empty());
        assert(terms_eval(t.drop_last(), env) == 0);
        assert(terms_eval(t, env) == terms_eval(t.drop_last(), env) + t.last().1 * var_value(
            t.last().0,
            env,
        ));
        assert(env[rs.len() + j] == sizes[j]);
    }
    lemma_inherit_correspond(
        records_lc_map(rs),
        opened_trade_map(rs, qs),
        pl,
        pi,
        prev_prices,
        env,
    );
    let ml = circuit_trade_map(rs, prev_syms, prev_prices);
    let mi = spec_inherit::<i64>(opened_trade_map(rs, qs), pi, prev_prices);
    assert(keys_of(ml) =~= keys_of(mi)) by {
        assert forall|i: int| 0 <= i < ml.len() implies keys_of(ml)[i] == keys_of(mi)[i] by {
            assert(ml[i].0 == mi[i].0);
        }
    }
    assert forall|i: int| 0 <= i < ml.len() implies #[trigger] qty_sum::<LinearCombination>(
        ml[i].1,
        env,
    ) == qty_sum::<i64>(mi[i].1, env) by {
        lemma_lists_sums(ml[i].1, mi[i].1, env, env);
    }
    lemma_total_correspond(ml, mi, market, env, env);
}

proof fn lemma_no_zwsp(s: Seq<char>)
    requires
        !s.contains(zwsp()),
    ensures
        strip_zwsp(s) == s,
{
    assert forall|j: int| 0 <= j < s.len() implies s[j] != zwsp() by {
        if s[j] == zwsp() {
            assert(s.contains(zwsp()));
        }
    }
    crate::digest::lemma_first_zwsp(s, s.len() as int);
}

/// The hashes of the first entries of a log.
pub open spec fn entry_hashes<V: Verifiable>(vs: Seq<V>) -> Seq<Seq<char>> {
    vs.map_values(|v: V| v.hash_view())
}

/// A log written by the commit flow verifies from the genesis: when each
/// entry's hash is the SHA-256 of its message, and each entry names (without a
/// zero-width space) the hash of the entry before it, or the hash of the
/// genesis text for the first, then every link of the chain holds.
pub proof fn lemma_committed_log_verifies<V: Verifiable>(genesis: Seq<char>, vs: Seq<V>)
    requires
        forall|i: int| 0 <= i < vs.len() ==> msg_hash_ok(#[trigger] vs[i]),
        forall|i: int|
            0 <= i < vs.len() ==> (#[trigger] vs[i]).prev_hash_view() == next_prev_hash(
                entry_hashes(vs.subrange(0, i)),
                genesis,
            ),
        forall|i: int| 0 <= i < vs.len() ==> !(#[trigger] vs[i]).prev_hash_view().contains(zwsp()),
    ensures
        forall|i: int| 0 <= i < vs.len() ==> #[trigger] genesis_link_ok(genesis, vs, i),
{
    assert forall|i: int| 0 <= i < vs.len() implies #[trigger] genesis_link_ok(genesis, vs, i) by {
        let v = vs[i];
        lemma_no_zwsp(v.prev_hash_view());
        if i > 0 {
            let h = entry_hashes(vs.subrange(0, i));
            assert(h.last() == vs[i - 1].hash_view());
            assert(msg_hash_ok(vs[i - 1]));
        }
    }
}

/// Delivering closes the position: whenever a delivery for `sym` can be
/// recorded, the symbol's trades afterwards sum to zero, so its P&L at any
/// market price is its realized cash balance.
pub proof fn lemma_deliver_closes_position(
    m: Seq<(Seq<char>, Seq<(i64, int)>)>,
    sym: Seq<char>,
    qty: i64,
    price: i64,
)
    requires
        spec_record_qty(TradeType::Deliver, qty, m, sym) is Ok,
    ensures
        ({
            let q = spec_record_qty(TradeType::Deliver, qty, m, sym)->Ok_0;
            let m2 = spec_append(m, sym, (price, q));
            let i = find_sym(keys_of(m2), sym);
            &&& 0 <= i < m2.len()
            &&& spec_size::<i64>(m2[i].1) == Some(0int)
            &&& forall|p: i64, env: Seq<int>|
                #[trigger] pnl_value::<i64>(m2[i].1, p, env) == cash_sum::<i64>(m2[i].1, env)
        }),
{
    let q = spec_record_qty(TradeType::Deliver, qty, m, sym)->Ok_0;
    let m2 = spec_append(m, sym, (price, q));
    let i = find_sym(keys_of(m), sym);
    lemma_find_sym(keys_of(m), sym);
    assert(keys_of(m2) =~= keys_of(m));
    let t = m2[i].1;
    assert(t.drop_last() =~= m[i].1);
    assert(spec_size::<i64>(t) == Some(0int));
    assert forall|p: i64, env: Seq<int>|
        #[trigger] pnl_value::<i64>(t, p, env) == cash_sum::<i64>(t, env) by {
        lemma_size_value::<i64>(t, env);
        assert(qty_sum::<i64>(t, env) == 0);
        assert(qty_sum::<i64>(t, env) * p == 0);
    }
}

proof fn lemma_idle_inherit(p: Seq<(Seq<char>, int)>, prices: Seq<(Seq<char>, i64)>)
    requires
        distinct_keys(keys_of(p)),
    ensures
        spec_inherit::<i64>(Seq::empty(), p, prices).len() == p.len(),
        forall|i: int|
            0 <= i < p.len() ==> (#[trigger] spec_inherit::<i64>(Seq::empty(), p, prices)[i]) == (
                p[i].0,
                seq![(price_or_zero(prices, p[i].0), p[i].1)],
            ),
    decreases p.len(),
{
    if p.len() > 0 {
        let q = p.drop_last();
        assert(distinct_keys(keys_of(q))) by {
            assert forall|i: int, j: int| 0 <= i < j < keys_of(q).len() implies keys_of(q)[i]
                != keys_of(q)[j] by {
                assert(keys_of(q)[i] == keys_of(p)[i]);
                assert(keys_of(q)[j] == keys_of(p)[j]);
            }
        }
        lemma_idle_inherit(q, prices);
        let m = spec_inherit::<i64>(Seq::empty(), q, prices);
        let sym = p.last().0;
        assert(keys_of(m) =~= keys_of(q)) by {
            assert forall|i: int| 0 <= i < m.len() implies keys_of(m)[i] == keys_of(q)[i] by {
                assert(m[i].0 == q[i].0);
            }
        }
        lemma_find_sym(keys_of(m), sym);
        assert(!keys_of(m).contains(sym)) by {
            if keys_of(m).contains(sym) {
                let k = choose|k: int| 0 <= k < keys_of(m).len() && keys_of(m)[k] == sym;
                assert(keys_of(p)[k] == keys_of(p)[p.len() - 1]);
            }
        }
        assert forall|i: int| 0 <= i < p.len() implies (#[trigger] spec_inherit::<i64>(
            Seq::empty(),
            p,
            prices,
        )[i]) == (p[i].0, seq![(price_or_zero(prices, p[i].0), p[i].1)]) by {
            if i < q.len() {
                assert(q[i] == p[i]);
            }
        }
    }
}

proof fn lemma_single_trade_totals(
    m: Seq<(Seq<char>, Seq<(i64, int)>)>,
    prices: Seq<(Seq<char>, i64)>,
    env: Seq<int>,
)
    requires
        forall|i: int|
            0 <= i < m.len() ==> (#[trigger] m[i]).1.len() == 1 && m[i].1[0].0 == price_or_zero(
                prices,
                m[i].0,
            ),
    ensures
        total_pnl_value::<i64>(m, prices, env) == 0,
    decreases m.len(),
{
    if m.len() > 0 {
        assert forall|i: int| 0 <= i < m.drop_last().len() implies (
        #[trigger] m.drop_last()[i]).1.len() == 1 && m.drop_last()[i].1[0].0 == price_or_zero(
            prices,
            m.drop_last()[i].0,
        ) by {
            assert(m.drop_last()[i] == m[i]);
        }
        lemma_single_trade_totals(m.drop_last(), prices, env);
        let t = m.last().1;
        assert(m.last() == m[m.len() - 1]);
        assert(t.drop_last() =~= Seq::<(i64, int)>::empty());
        let x = t[0].1;
        let pr = t[0].0 as int;
        assert(t.last() == t[0]);
        assert(cash_sum::<i64>(t.drop_last(), env) == 0);
        assert(qty_sum::<i64>(t.drop_last(), env) == 0);
        assert(cash_sum::<i64>(t, env) == (-x) * pr);
        assert(qty_sum::<i64>(t, env) == x);
        assert(price_or_zero(prices, m.last().0) == t[0].0);
        assert((-x) * pr + x * pr == 0) by (nonlinear_arith);
        assert(pnl_value::<i64>(t, price_or_zero(prices, m.last().0), env) == 0);
    }
}

/// A snapshot taken right after another, with no new records and at the same
/// market prices, carries each previous position over as is and has zero
/// P&L: the carried trades are made at the prices they are marked at.
pub proof fn lemma_idle_period(
    p: Seq<(Seq<char>, int)>,
    prices: Seq<(Seq<char>, i64)>,
    env: Seq<int>,
)
    requires
        distinct_keys(keys_of(p)),
        forall|i: int| 0 <= i < p.len() ==> fits_i64(#[trigger] p[i].1),
    ensures
        ({
            let m = spec_inherit::<i64>(Seq::empty(), p, prices);
            &&& keys_of(m) == keys_of(p)
            &&& forall|i: int|
                0 <= i < p.len() ==> #[trigger] spec_size::<i64>(m[i].1) == Some(p[i].1)
            &&& total_pnl_value::<i64>(m, prices, env) == 0
        }),
{
    lemma_idle_inherit(p, prices);
    let m = spec_inherit::<i64>(Seq::empty(), p, prices);
    assert(keys_of(m) =~= keys_of(p)) by {
        assert forall|i: int| 0 <= i < m.len() implies keys_of(m)[i] == keys_of(p)[i] by {
            assert(m[i].0 == p[i].0);
        }
    }
    assert forall|i: int| 0 <= i < p.len() implies #[trigger] spec_size::<i64>(m[i].1) == Some(
        p[i].1,
    ) by {
        assert(m[i] == (p[i].0, seq![(price_or_zero(prices, p[i].0), p[i].1)]));
        let t = m[i].1;
        assert(t.drop_last() =~= Seq::<(i64, int)>::empty());
        assert(t.last().1 == p[i].1);
        assert(spec_size::<i64>(t.drop_last()) == Some(0int));
    }
    assert forall|i: int| 0 <= i < m.len() implies (#[trigger] m[i]).1.len() == 1 && m[i].1[0].0
        == price_or_zero(prices, m[i].0) by {
        assert(m[i] == (p[i].0, seq![(price_or_zero(prices, p[i].0), p[i].1)]));
    }
    lemma_single_trade_totals(m, prices, env);
}

/// The published face of each record names the symbol and price of its
/// private trade.
pub open spec fn faces_match(blinded: Seq<BlindedRecord>, rs: Seq<Record>) -> bool {
    &&& blinded.len() == rs.len()
    &&& forall|k: int|
        0 <= k < rs.len() ==> (#[trigger] blinded[k]).msg.symbol@ == rs[k].trade.symbol@
            && blinded[k].msg.price == rs[k].trade.price
}

/// The records' private quantities, in order.
pub open spec fn record_qtys(rs: Seq<Record>) -> Seq<int> {
    rs.map_values(|r: Record| r.trade.qty as int)
}

proof fn lemma_opened_is_ledger(blinded: Seq<BlindedRecord>, rs: Seq<Record>, qs: Seq<int>)
    requires
        faces_match(blinded, rs),
        qs.len() >= rs.len(),
        forall|k: int| 0 <= k < rs.len() ==> #[trigger] qs[k] == rs[k].trade.qty as int,
    ensures
        opened_trade_map(blinded, qs) == records_trade_map(rs),
    decreases rs.len(),
{
    if rs.len() > 0 {
        assert(faces_match(blinded.drop_last(), rs.drop_last())) by {
            assert forall|k: int| 0 <= k < rs.drop_last().len() implies (
            #[trigger] blinded.drop_last()[k]).msg.symbol@ == rs.drop_last()[k].trade.symbol@
                && blinded.drop_last()[k].msg.price == rs.drop_last()[k].trade.price by {
                assert(blinded.drop_last()[k] == blinded[k]);
                assert(rs.drop_last()[k] == rs[k]);
            }
        }
        assert forall|k: int| 0 <= k < rs.drop_last().len() implies #[trigger] qs[k]
            == rs.drop_last()[k].trade.qty as int by {
            assert(rs.drop_last()[k] == rs[k]);
        }
        lemma_opened_is_ledger(blinded.drop_last(), rs.drop_last(), qs);
        assert(blinded.last() == blinded[rs.len() - 1]);
        assert(rs.last() == rs[rs.len() - 1]);
    }
}

/// An honest snapshot satisfies its proof circuit. When the published faces
/// of the period's records match their private trades, and the committed
/// variables open to the records' quantities and to the previous portfolio's
/// sizes, the circuit's total P&L opens to the ledger's total P&L of the
/// period (the records' trades with the previous positions carried at the
/// previous prices); so where the ledger's total is the published `pnl`, the
/// P&L constraint, which evaluates to the circuit's total minus `pnl`, is met.
pub proof fn lemma_honest_snapshot_satisfies_pnl(
    blinded: Seq<BlindedRecord>,
    rs: Seq<Record>,
    prev_syms: Seq<String>,
    prev_port: Seq<(Seq<char>, int)>,
    prev_prices: Seq<(Seq<char>, i64)>,
    market: Seq<(Seq<char>, i64)>,
    pnl: i64,
    env: Seq<int>,
)
    requires
        faces_match(blinded, rs),
        prev_port.len() == prev_syms.len(),
        forall|j: int| 0 <= j < prev_syms.len() ==> (#[trigger] prev_syms[j])@ == prev_port[j].0,
        rs.len() + prev_syms.len() <= usize::MAX,
        env.len() >= rs.len() + prev_syms.len(),
        forall|k: int| 0 <= k < rs.len() ==> #[trigger] env[k] == rs[k].trade.qty as int,
        forall|j: int| 0 <= j < prev_port.len() ==> #[trigger] env[rs.len() + j] == prev_port[j].1,
        spec_total_pnl::<i64>(spec_inherit::<i64>(records_trade_map(rs), prev_port, prev_prices), market)
            == Some(pnl as int),
    ensures
        total_pnl_value::<LinearCombination>(
            circuit_trade_map(blinded, prev_syms, prev_prices),
            market,
            env,
        ) - pnl == 0,
{
    let qs = record_qtys(rs);
    let sizes = prev_port.map_values(|e: (Seq<char>, int)| e.1);
    assert forall|k: int| 0 <= k < blinded.len() implies #[trigger] env[k] == qs[k] by {}
    assert forall|j: int| 0 <= j < sizes.len() implies #[trigger] env[blinded.len() + j]
        == sizes[j] by {}
    lemma_circuit_opens_to_plaintext(blinded, qs, prev_syms, sizes, prev_prices, market, env);
    lemma_opened_is_ledger(blinded, rs, qs);
    assert(opened_port(prev_syms, sizes) =~= prev_port);
    let m = spec_inherit::<i64>(records_trade_map(rs), prev_port, prev_prices);
    lemma_total_pnl_value::<i64>(m, market, env);
}

/// The sum of the first `k` plaintext quantities.
pub open spec fn prefix_qty_sum(ts: Seq<(i64, int)>, k: int) -> int
    decreases k,
{
    if k <= 0 {
        0
    } else {
        prefix_qty_sum(ts, k - 1) + ts[k - 1].1
    }
}

/// Plaintext sizes fail loudly and only on overflow: the size of a trade list
/// is defined exactly when every running sum of its quantities fits in a
/// signed 64-bit integer, and is then the sum of the quantities.
pub proof fn lemma_size_overflow_exact(ts: Seq<(i64, int)>)
    ensures
        spec_size::<i64>(ts) is Some <==> forall|k: int|
            1 <= k <= ts.len() ==> fits_i64(#[trigger] prefix_qty_sum(ts, k)),
        spec_size::<i64>(ts) is Some ==> spec_size::<i64>(ts)->0 == prefix_qty_sum(
            ts,
            ts.len() as int,
        ),
    decreases ts.len(),
{
    if ts.len() > 0 {
        let d = ts.drop_last();
        lemma_size_overflow_exact(d);
        assert forall|k: int| 0 <= k <= d.len() implies #[trigger] prefix_qty_sum(d, k)
            == prefix_qty_sum(ts, k) by {
            lemma_prefix_agrees(d, ts, k);
        }
        if spec_size::<i64>(ts) is Some {
            assert forall|k: int| 1 <= k <= ts.len() implies fits_i64(
                #[trigger] prefix_qty_sum(ts, k),
            ) by {
                if k < ts.len() {
                    assert(prefix_qty_sum(d, k) == prefix_qty_sum(ts, k));
                }
            }
        }
        if forall|k: int| 1 <= k <= ts.len() ==> fits_i64(#[trigger] prefix_qty_sum(ts, k)) {
            assert forall|k: int| 1 <= k <= d.len() implies fits_i64(
                #[trigger] prefix_qty_sum(d, k),
            ) by {
                assert(prefix_qty_sum(d, k) == prefix_qty_sum(ts, k));
                assert(fits_i64(prefix_qty_sum(ts, k)));
            }
            assert(fits_i64(prefix_qty_sum(ts, ts.len() as int)));
        }
    }
}

proof fn lemma_prefix_agrees(d: Seq<(i64, int)>, ts: Seq<(i64, int)>, k: int)
    requires
        d.len() <= ts.len(),
        forall|i: int| 0 <= i < d.len() ==> d[i] == ts[i],
        0 <= k <= d.len(),
    ensures
        prefix_qty_sum(d, k) == prefix_qty_sum(ts, k),
    decreases k,
{
    if k > 0 {
        lemma_prefix_agrees(d, ts, k - 1);
    }
}

/// The prove/verify round trip, at the level of the constraints. Take any
/// constraints with the circuit's equations (those `prover_circuit` and
/// `verify` return) for a period whose published records match their private
/// trades, and open the committed variables honestly: the records'
/// quantities, the previous portfolio's sizes, then `curt_sizes` for the
/// current positions. Then the P&L constraint evaluates to the ledger's P&L
/// of the period minus the published `pnl`, and the size constraint of
/// position `j` to `curt_sizes[j]` minus the ledger's size of that symbol. So
/// an honest snapshot satisfies every constraint, a published P&L off by `d`
/// leaves the P&L constraint at `-d`, and a committed size off by `d` leaves
/// its constraint at `d`.
pub proof fn lemma_honest_opening(
    cs: Seq<LinearCombination>,
    blinded: Seq<BlindedRecord>,
    rs: Seq<Record>,
    prev_syms: Seq<String>,
    prev_port: Seq<(Seq<char>, int)>,
    prev_prices: Seq<(Seq<char>, i64)>,
    curt_syms: Seq<String>,
    curt_sizes: Seq<int>,
    market: Seq<(Seq<char>, i64)>,
    pnl: i64,
    ledger_pnl: i64,
    env: Seq<int>,
)
    requires
        circuit_equations(cs, blinded, prev_syms, prev_prices, curt_syms, market, pnl),
        faces_match(blinded, rs),
        prev_port.len() == prev_syms.len(),
        forall|j: int| 0 <= j < prev_syms.len() ==> (#[trigger] prev_syms[j])@ == prev_port[j].0,
        curt_sizes.len() == curt_syms.len(),
        rs.len() + prev_syms.len() + curt_syms.len() <= usize::MAX,
        env.len() >= rs.len() + prev_syms.len() + curt_syms.len(),
        forall|k: int| 0 <= k < rs.len() ==> #[trigger] env[k] == rs[k].trade.qty as int,
        forall|j: int| 0 <= j < prev_port.len() ==> #[trigger] env[rs.len() + j] == prev_port[j].1,
        forall|j: int|
            0 <= j < curt_syms.len() ==> #[trigger] env[rs.len() + prev_syms.len() + j]
                == curt_sizes[j],
        spec_total_pnl::<i64>(spec_inherit::<i64>(records_trade_map(rs), prev_port, prev_prices), market)
            == Some(ledger_pnl as int),
    ensures
        ({
            let mi = spec_inherit::<i64>(records_trade_map(rs), prev_port, prev_prices);
            &&& terms_eval(cs[0].model(), env) == ledger_pnl - pnl
            &&& forall|j: int|
                0 <= j < curt_syms.len() ==> #[trigger] terms_eval(cs[j + 1].model(), env)
                    == curt_sizes[j] - qty_sum::<i64>(mi[find_sym(keys_of(mi), curt_syms[j]@)].1, env)
        }),
{
    let qs = record_qtys(rs);
    let sizes = prev_port.map_values(|e: (Seq<char>, int)| e.1);
    assert forall|k: int| 0 <= k < blinded.len() implies #[trigger] env[k] == qs[k] by {}
    assert forall|j: int| 0 <= j < sizes.len() implies #[trigger] env[blinded.len() + j]
        == sizes[j] by {}
    lemma_circuit_opens_to_plaintext(blinded, qs, prev_syms, sizes, prev_prices, market, env);
    lemma_opened_is_ledger(blinded, rs, qs);
    assert(opened_port(prev_syms, sizes) =~= prev_port);
    let ml = circuit_trade_map(blinded, prev_syms, prev_prices);
    let mi = spec_inherit::<i64>(records_trade_map(rs), prev_port, prev_prices);
    lemma_total_pnl_value::<i64>(mi, market, env);
    assert(terms_eval(cs[0].model(), env) == total_pnl_value::<LinearCombination>(ml, market, env)
        - pnl);
    assert forall|j: int| 0 <= j < curt_syms.len() implies #[trigger] terms_eval(
        cs[j + 1].model(),
        env,
    ) == curt_sizes[j] - qty_sum::<i64>(mi[find_sym(keys_of(mi), curt_syms[j]@)].1, env) by {
        let idx = find_sym(keys_of(ml), curt_syms[j]@);
        assert(idx >= 0);
        lemma_find_sym(keys_of(ml), curt_syms[j]@);
        let n = rs.len() as int;
        let p = prev_syms.len() as int;
        assert(((n + p + j) as usize) as int == n + p + j);
        assert(var_value(Variable::Committed((n + p + j) as usize), env) == env[n + p + j]);
        assert(qty_sum::<LinearCombination>(ml[idx].1, env) == qty_sum::<i64>(mi[idx].1, env));
    }
}

} // verus!

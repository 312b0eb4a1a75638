//! Book arithmetic over the quantity algebra: position size, cash balance,
//! market value, P&L per symbol and in total, the portfolio of a trade map, and
//! the carrying of a previous portfolio into a trade map.
//!
//! Prices are fixed-point integers (the real price times the integerize factor).
use vstd::prelude::*;
use crate::quantity::ZKPNLCalculable;
use crate::maps::{TradeMap, PriceMap, PortMap, price_of, spec_append, keys_of};

verus! {

/// The models of a list of `(price, quantity)` trades.
pub open spec fn trades_model<V: ZKPNLCalculable>(ts: Seq<(i64, V)>) -> Seq<(i64, V::Model)> {
    ts.map_values(|t: (i64, V)| (t.0, t.1.model()))
}

/// The model of an optional value.
pub open spec fn opt_model<V: ZKPNLCalculable>(r: Option<V>) -> Option<V::Model> {
    match r {
        Some(v) => Some(v.model()),
        None => None,
    }
}

/// Sum of the quantities, in the order of the list.
pub open spec fn spec_size<V: ZKPNLCalculable>(ts: Seq<(i64, V::Model)>) -> Option<V::Model>
    decreases ts.len(),
{
    if ts.len() == 0 {
        Some(V::m_zero())
    } else {
        match spec_size::<V>(ts.drop_last()) {
            Some(acc) => V::m_add(acc, ts.last().1),
            None => None,
        }
    }
}

/// The cash flow of one trade: `-qty * price`.
pub open spec fn spec_cash_flow<V: ZKPNLCalculable>(t: (i64, V::Model)) -> Option<V::Model> {
    match V::m_neg(t.1) {
        Some(n) => V::m_scale(n, t.0),
        None => None,
    }
}

/// Sum of the cash flows, in the order of the list.
pub open spec fn spec_cash_balance<V: ZKPNLCalculable>(ts: Seq<(i64, V::Model)>) -> Option<
    V::Model,
>
    decreases ts.len(),
{
    if ts.len() == 0 {
        Some(V::m_zero())
    } else {
        match (spec_cash_balance::<V>(ts.drop_last()), spec_cash_flow::<V>(ts.last())) {
            (Some(acc), Some(f)) => V::m_add(acc, f),
            _ => None,
        }
    }
}

/// The position's size times the market price.
pub open spec fn spec_market_value<V: ZKPNLCalculable>(
    ts: Seq<(i64, V::Model)>,
    market_price: i64,
) -> Option<V::Model> {
    match spec_size::<V>(ts) {
        Some(s) => V::m_scale(s, market_price),
        None => None,
    }
}

/// Cash balance plus market value.
pub open spec fn spec_pnl<V: ZKPNLCalculable>(ts: Seq<(i64, V::Model)>, market_price: i64) -> Option<
    V::Model,
> {
    match (spec_cash_balance::<V>(ts), spec_market_value::<V>(ts, market_price)) {
        (Some(c), Some(m)) => V::m_add(c, m),
        _ => None,
    }
}

/// Sum of the quantities, as integers under the opening `env`.
pub open spec fn qty_sum<V: ZKPNLCalculable>(ts: Seq<(i64, V::Model)>, env: Seq<int>) -> int
    decreases ts.len(),
{
    if ts.len() == 0 {
        0
    } else {
        qty_sum::<V>(ts.drop_last(), env) + V::m_eval(ts.last().1, env)
    }
}

/// Sum of `-qty * price`, as integers under the opening `env`.
pub open spec fn cash_sum<V: ZKPNLCalculable>(ts: Seq<(i64, V::Model)>, env: Seq<int>) -> int
    decreases ts.len(),
{
    if ts.len() == 0 {
        0
    } else {
        cash_sum::<V>(ts.drop_last(), env) + (-V::m_eval(ts.last().1, env)) * ts.last().0
    }
}

/// The P&L of a symbol's trades as an integer: cash balance plus market value.
pub open spec fn pnl_value<V: ZKPNLCalculable>(
    ts: Seq<(i64, V::Model)>,
    market_price: i64,
    env: Seq<int>,
) -> int {
    cash_sum::<V>(ts, env) + qty_sum::<V>(ts, env) * market_price
}

/// Whenever the size of a trade list is defined, its value under any opening
/// is the sum of the opened quantities.
pub proof fn lemma_size_value<V: ZKPNLCalculable>(ts: Seq<(i64, V::Model)>, env: Seq<int>)
    requires
        spec_size::<V>(ts) is Some,
    ensures
        V::m_eval(spec_size::<V>(ts)->0, env) == qty_sum::<V>(ts, env),
    decreases ts.len(),
{
    if ts.len() == 0 {
        V::lemma_zero(env);
    } else {
        lemma_size_value::<V>(ts.drop_last(), env);
        V::lemma_add(spec_size::<V>(ts.drop_last())->0, ts.last().1, env);
    }
}

proof fn lemma_cash_balance_value<V: ZKPNLCalculable>(ts: Seq<(i64, V::Model)>, env: Seq<int>)
    requires
        spec_cash_balance::<V>(ts) is Some,
    ensures
        V::m_eval(spec_cash_balance::<V>(ts)->0, env) == cash_sum::<V>(ts, env),
    decreases ts.len(),
{
    if ts.len() == 0 {
        V::lemma_zero(env);
    } else {
        let t = ts.last();
        lemma_cash_balance_value::<V>(ts.drop_last(), env);
        V::lemma_neg(t.1, env);
        V::lemma_scale(V::m_neg(t.1)->0, t.0, env);
        V::lemma_add(spec_cash_balance::<V>(ts.drop_last())->0, spec_cash_flow::<V>(t)->0, env);
    }
}

/// Whenever the P&L of a trade list is defined, its value under any opening is
/// the cash balance plus the market value of the opened quantities.
pub proof fn lemma_pnl_value<V: ZKPNLCalculable>(
    ts: Seq<(i64, V::Model)>,
    market_price: i64,
    env: Seq<int>,
)
    requires
        spec_pnl::<V>(ts, market_price) is Some,
    ensures
        V::m_eval(spec_pnl::<V>(ts, market_price)->0, env) == pnl_value::<V>(ts, market_price, env),
{
    lemma_cash_balance_value::<V>(ts, env);
    lemma_size_value::<V>(ts, env);
    V::lemma_scale(spec_size::<V>(ts)->0, market_price, env);
    V::lemma_add(
        spec_cash_balance::<V>(ts)->0,
        spec_market_value::<V>(ts, market_price)->0,
        env,
    );
}

/// The size of a position: the sum of its trades' quantities.
pub fn calc_size<V: ZKPNLCalculable>(trades: &[(i64, V)]) -> (r: Option<V>)
    ensures
        opt_model(r) == spec_size::<V>(trades_model(trades@)),
        r matches Some(v) ==> forall|env: Seq<int>|
            #[trigger] V::m_eval(v.model(), env) == qty_sum::<V>(trades_model(trades@), env),
{
    let mut acc = V::zero();
    let mut i: usize = 0;
    while i < trades.len()
        invariant
            i <= trades.len(),
            spec_size::<V>(trades_model(trades@.subrange(0, i as int))) == Some(acc.model()),
        decreases trades.len() - i,
    {
        let ghost before = acc.model();
        proof {
            assert(trades_model(trades@.subrange(0, i + 1)).drop_last() =~= trades_model(
                trades@.subrange(0, i as int),
            ));
        }
        match acc.add(&trades[i].1) {
            Some(a) => {
                acc = a;
            },
            None => {
                proof {
                    assert(trades_model(trades@).subrange(0, i + 1) =~= trades_model(
                        trades@.subrange(0, i + 1),
                    ));
                    lemma_none_propagates_size::<V>(trades_model(trades@), i as int);
                }
                return None;
            },
        }
        i = i + 1;
    }
    proof {
        assert(trades@.subrange(0, trades.len() as int) =~= trades@);
        assert forall|env: Seq<int>|
            #[trigger] V::m_eval(acc.model(), env) == qty_sum::<V>(trades_model(trades@), env) by {
            lemma_size_value::<V>(trades_model(trades@), env);
        }
    }
    Some(acc)
}

proof fn lemma_none_propagates_size<V: ZKPNLCalculable>(ts: Seq<(i64, V::Model)>, i: int)
    requires
        0 <= i < ts.len(),
        spec_size::<V>(ts.subrange(0, i + 1)) is None,
    ensures
        spec_size::<V>(ts) is None,
    decreases ts.len() - i,
{
    if i + 1 < ts.len() {
        assert(ts.subrange(0, i + 2).drop_last() =~= ts.subrange(0, i + 1));
        lemma_none_propagates_size::<V>(ts, i + 1);
    } else {
        assert(ts.subrange(0, i + 1) =~= ts);
    }
}

proof fn lemma_none_propagates_cash<V: ZKPNLCalculable>(ts: Seq<(i64, V::Model)>, i: int)
    requires
        0 <= i < ts.len(),
        spec_cash_balance::<V>(ts.subrange(0, i + 1)) is None,
    ensures
        spec_cash_balance::<V>(ts) is None,
    decreases ts.len() - i,
{
    if i + 1 < ts.len() {
        assert(ts.subrange(0, i + 2).drop_last() =~= ts.subrange(0, i + 1));
        lemma_none_propagates_cash::<V>(ts, i + 1);
    } else {
        assert(ts.subrange(0, i + 1) =~= ts);
    }
}

/// The cash balance of a position: long trades spend cash and short trades
/// receive it, so each trade contributes `-qty * price`.
pub fn calc_cash_balance<V: ZKPNLCalculable>(trades: &[(i64, V)]) -> (r: Option<V>)
    ensures
        opt_model(r) == spec_cash_balance::<V>(trades_model(trades@)),
        r matches Some(v) ==> forall|env: Seq<int>|
            #[trigger] V::m_eval(v.model(), env) == cash_sum::<V>(trades_model(trades@), env),
{
    let mut acc = V::zero();
    let mut i: usize = 0;
    while i < trades.len()
        invariant
            i <= trades.len(),
            spec_cash_balance::<V>(trades_model(trades@.subrange(0, i as int))) == Some(acc.model()),
        decreases trades.len() - i,
    {
        proof {
            assert(trades_model(trades@.subrange(0, i + 1)).drop_last() =~= trades_model(
                trades@.subrange(0, i as int),
            ));
            assert(trades_model(trades@).subrange(0, i + 1) =~= trades_model(
                trades@.subrange(0, i + 1),
            ));
        }
        let price = trades[i].0;
        let flow = match trades[i].1.neg() {
            Some(n) => n.scale(price),
            None => None,
        };
        let next = match flow {
            Some(f) => acc.add(&f),
            None => None,
        };
        match next {
            Some(a) => {
                acc = a;
            },
            None => {
                proof {
                    lemma_none_propagates_cash::<V>(trades_model(trades@), i as int);
                }
                return None;
            },
        }
        i = i + 1;
    }
    proof {
        assert(trades@.subrange(0, trades.len() as int) =~= trades@);
        assert forall|env: Seq<int>|
            #[trigger] V::m_eval(acc.model(), env) == cash_sum::<V>(trades_model(trades@), env) by {
            lemma_cash_balance_value::<V>(trades_model(trades@), env);
        }
    }
    Some(acc)
}

/// The market value of a position: its size times the market price.
pub fn calc_market_value<V: ZKPNLCalculable>(trades: &[(i64, V)], market_price: i64) -> (r: Option<
    V,
>)
    ensures
        opt_model(r) == spec_market_value::<V>(trades_model(trades@), market_price),
        r matches Some(v) ==> forall|env: Seq<int>|
            #[trigger] V::m_eval(v.model(), env) == qty_sum::<V>(trades_model(trades@), env)
                * market_price,
{
    match calc_size(trades) {
        Some(size) => {
            let r = size.scale(market_price);
            proof {
                if r is Some {
                    assert forall|env: Seq<int>|
                        #[trigger] V::m_eval(r->0.model(), env) == qty_sum::<V>(
                            trades_model(trades@),
                            env,
                        ) * market_price by {
                        V::lemma_scale(size.model(), market_price, env);
                    }
                }
            }
            r
        },
        None => None,
    }
}

/// The P&L of a position: its cash balance (starting from zero) plus its
/// market value.
pub fn calc_pnl<V: ZKPNLCalculable>(trades: &[(i64, V)], market_price: i64) -> (r: Option<V>)
    ensures
        opt_model(r) == spec_pnl::<V>(trades_model(trades@), market_price),
        r matches Some(v) ==> forall|env: Seq<int>|
            #[trigger] V::m_eval(v.model(), env) == pnl_value::<V>(
                trades_model(trades@),
                market_price,
                env,
            ),
{
    let cash = calc_cash_balance(trades);
    let value = calc_market_value(trades, market_price);
    let r = match (cash, value) {
        (Some(c), Some(m)) => c.add(&m),
        _ => None,
    };
    proof {
        if r is Some {
            assert forall|env: Seq<int>|
                #[trigger] V::m_eval(r->0.model(), env) == pnl_value::<V>(
                    trades_model(trades@),
                    market_price,
                    env,
                ) by {
                lemma_pnl_value::<V>(trades_model(trades@), market_price, env);
            }
        }
    }
    r
}

/// The total P&L of a trade map: the sum over its symbols, in order, of each
/// symbol's P&L at its market price; undefined where a symbol has no price.
pub open spec fn spec_total_pnl<V: ZKPNLCalculable>(
    m: Seq<(Seq<char>, Seq<(i64, V::Model)>)>,
    prices: Seq<(Seq<char>, i64)>,
) -> Option<V::Model>
    decreases m.len(),
{
    if m.len() == 0 {
        Some(V::m_zero())
    } else {
        match (spec_total_pnl::<V>(m.drop_last(), prices), price_of(prices, m.last().0)) {
            (Some(acc), Some(p)) => match spec_pnl::<V>(m.last().1, p) {
                Some(x) => V::m_add(acc, x),
                None => None,
            },
            _ => None,
        }
    }
}

/// The market price of `sym`, or zero where there is none.
pub open spec fn price_or_zero(prices: Seq<(Seq<char>, i64)>, sym: Seq<char>) -> i64 {
    match price_of(prices, sym) {
        Some(p) => p,
        None => 0,
    }
}

/// The total P&L as an integer under the opening `env`.
pub open spec fn total_pnl_value<V: ZKPNLCalculable>(
    m: Seq<(Seq<char>, Seq<(i64, V::Model)>)>,
    prices: Seq<(Seq<char>, i64)>,
    env: Seq<int>,
) -> int
    decreases m.len(),
{
    if m.len() == 0 {
        0
    } else {
        total_pnl_value::<V>(m.drop_last(), prices, env) + pnl_value::<V>(
            m.last().1,
            price_or_zero(prices, m.last().0),
            env,
        )
    }
}

/// Whenever the total P&L is defined, its value under any opening is the sum
/// of the symbols' P&L values.
pub proof fn lemma_total_pnl_value<V: ZKPNLCalculable>(
    m: Seq<(Seq<char>, Seq<(i64, V::Model)>)>,
    prices: Seq<(Seq<char>, i64)>,
    env: Seq<int>,
)
    requires
        spec_total_pnl::<V>(m, prices) is Some,
    ensures
        V::m_eval(spec_total_pnl::<V>(m, prices)->0, env) == total_pnl_value::<V>(m, prices, env),
    decreases m.len(),
{
    if m.len() == 0 {
        V::lemma_zero(env);
    } else {
        let p = price_of(prices, m.last().0)->0;
        lemma_total_pnl_value::<V>(m.drop_last(), prices, env);
        lemma_pnl_value::<V>(m.last().1, p, env);
        V::lemma_add(
            spec_total_pnl::<V>(m.drop_last(), prices)->0,
            spec_pnl::<V>(m.last().1, p)->0,
            env,
        );
    }
}

proof fn lemma_none_propagates_total<V: ZKPNLCalculable>(
    m: Seq<(Seq<char>, Seq<(i64, V::Model)>)>,
    prices: Seq<(Seq<char>, i64)>,
    i: int,
)
    requires
        0 <= i < m.len(),
        spec_total_pnl::<V>(m.subrange(0, i + 1), prices) is None,
    ensures
        spec_total_pnl::<V>(m, prices) is None,
    decreases m.len() - i,
{
    if i + 1 < m.len() {
        assert(m.subrange(0, i + 2).drop_last() =~= m.subrange(0, i + 1));
        lemma_none_propagates_total::<V>(m, prices, i + 1);
    } else {
        assert(m.subrange(0, i + 1) =~= m);
    }
}

/// The total P&L of a trade map at the given market prices. `None` where a
/// symbol of the map has no market price, or where the representation
/// overflows.
pub fn calc_total_pnl<V: ZKPNLCalculable>(trade_map: &TradeMap<V>, price_map: &PriceMap) -> (r:
    Option<V>)
    ensures
        opt_model(r) == spec_total_pnl::<V>(trade_map.view_m(), price_map.view()),
        r matches Some(v) ==> forall|env: Seq<int>|
            #[trigger] V::m_eval(v.model(), env) == total_pnl_value::<V>(
                trade_map.view_m(),
                price_map.view(),
                env,
            ),
{
    let ghost m = trade_map.view_m();
    let ghost prices = price_map.view();
    let mut acc = V::zero();
    let mut i: usize = 0;
    while i < trade_map.entries.len()
        invariant
            i <= trade_map.entries.len(),
            m == trade_map.view_m(),
            prices == price_map.view(),
            spec_total_pnl::<V>(m.subrange(0, i as int), prices) == Some(acc.model()),
        decreases trade_map.entries.len() - i,
    {
        proof {
            assert(m.subrange(0, i + 1).drop_last() =~= m.subrange(0, i as int));
        }
        let entry = &trade_map.entries[i];
        let next = match price_map.get(&entry.0) {
            Some(p) => match calc_pnl(entry.1.as_slice(), p) {
                Some(x) => acc.add(&x),
                None => None,
            },
            None => None,
        };
        match next {
            Some(a) => {
                acc = a;
            },
            None => {
                proof {
                    lemma_none_propagates_total::<V>(m, prices, i as int);
                }
                return None;
            },
        }
        i = i + 1;
    }
    proof {
        assert(m.subrange(0, trade_map.entries.len() as int) =~= m);
        assert forall|env: Seq<int>|
            #[trigger] V::m_eval(acc.model(), env) == total_pnl_value::<V>(m, prices, env) by {
            lemma_total_pnl_value::<V>(m, prices, env);
        }
    }
    Some(acc)
}

/// `p` holds, in order, each symbol of `m` with the size of its position.
pub open spec fn is_portfolio_of<V: ZKPNLCalculable>(
    p: Seq<(Seq<char>, V::Model)>,
    m: Seq<(Seq<char>, Seq<(i64, V::Model)>)>,
) -> bool {
    &&& p.len() == m.len()
    &&& forall|i: int|
        0 <= i < m.len() ==> (#[trigger] p[i]).0 == m[i].0 && spec_size::<V>(m[i].1) == Some(
            p[i].1,
        )
}

/// The portfolio of a trade map: each symbol, in order, with the size of its
/// position. `None` where a size overflows.
pub fn calc_portfolio<V: ZKPNLCalculable>(trade_map: &TradeMap<V>) -> (r: Option<PortMap<V>>)
    ensures
        match r {
            Some(p) => is_portfolio_of::<V>(p.view_m(), trade_map.view_m()),
            None => exists|i: int|
                0 <= i < trade_map.view_m().len() && (#[trigger] spec_size::<V>(
                    trade_map.view_m()[i].1,
                )) is None,
        },
{
    let ghost m = trade_map.view_m();
    let mut entries: Vec<(String, V)> = Vec::new();
    let mut i: usize = 0;
    while i < trade_map.entries.len()
        invariant
            i <= trade_map.entries.len(),
            m == trade_map.view_m(),
            entries@.len() == i,
            forall|k: int|
                0 <= k < i ==> (#[trigger] entries@[k]).0@ == m[k].0 && spec_size::<V>(m[k].1)
                    == Some(entries@[k].1.model()),
        decreases trade_map.entries.len() - i,
    {
        let entry = &trade_map.entries[i];
        match calc_size(entry.1.as_slice()) {
            Some(size) => {
                entries.push((entry.0.clone(), size));
            },
            None => {
                proof {
                    assert(spec_size::<V>(m[i as int].1) is None);
                }
                return None;
            },
        }
        i = i + 1;
    }
    let p = PortMap { entries };
    proof {
        assert forall|k: int| 0 <= k < m.len() implies (#[trigger] p.view_m()[k]).0 == m[k].0
            && spec_size::<V>(m[k].1) == Some(p.view_m()[k].1) by {
            assert(p.view_m()[k] == (entries@[k].0@, entries@[k].1.model()));
        }
    }
    Some(p)
}

/// Every symbol of `keys` has a price.
pub open spec fn all_priced(keys: Seq<Seq<char>>, prices: Seq<(Seq<char>, i64)>) -> bool {
    forall|i: int| 0 <= i < keys.len() ==> (#[trigger] price_of(prices, keys[i])) is Some
}

/// Carries the portfolio `p` into the trade map `m`: for each of its symbols,
/// in order, a trade of the position's size at that symbol's price is appended.
pub open spec fn spec_inherit<V: ZKPNLCalculable>(
    m: Seq<(Seq<char>, Seq<(i64, V::Model)>)>,
    p: Seq<(Seq<char>, V::Model)>,
    prices: Seq<(Seq<char>, i64)>,
) -> Seq<(Seq<char>, Seq<(i64, V::Model)>)>
    decreases p.len(),
{
    if p.len() == 0 {
        m
    } else {
        spec_append(
            spec_inherit::<V>(m, p.drop_last(), prices),
            p.last().0,
            (price_or_zero(prices, p.last().0), p.last().1),
        )
    }
}

/// Treats each position of the previous portfolio `p` as a trade made at the
/// previous closing price, appending it to `trade_map`. Returns `false`, and
/// leaves the map as it was, where a symbol of `p` has no price.
pub fn inherit_portfolio<V: ZKPNLCalculable>(
    p: &PortMap<V>,
    trade_map: &mut TradeMap<V>,
    price_map: &PriceMap,
) -> (ok: bool)
    requires
        old(trade_map).wf(),
    ensures
        ok == all_priced(keys_of(p.view_m()), price_map.view()),
        ok ==> final(trade_map).view_m() == spec_inherit::<V>(
            old(trade_map).view_m(),
            p.view_m(),
            price_map.view(),
        ),
        !ok ==> final(trade_map).view_m() == old(trade_map).view_m(),
        final(trade_map).wf(),
{
    let ghost pv = p.view_m();
    let ghost prices = price_map.view();
    let mut j: usize = 0;
    while j < p.entries.len()
        invariant
            j <= p.entries.len(),
            pv == p.view_m(),
            prices == price_map.view(),
            trade_map.wf(),
            forall|k: int| 0 <= k < j ==> (#[trigger] price_of(prices, keys_of(pv)[k])) is Some,
        decreases p.entries.len() - j,
    {
        if price_map.get(&p.entries[j].0).is_none() {
            proof {
                assert(keys_of(pv)[j as int] == p.entries@[j as int].0@);
            }
            return false;
        }
        j = j + 1;
    }
    let ghost m0 = trade_map.view_m();
    let mut i: usize = 0;
    while i < p.entries.len()
        invariant
            i <= p.entries.len(),
            pv == p.view_m(),
            prices == price_map.view(),
            all_priced(keys_of(pv), prices),
            trade_map.wf(),
            trade_map.view_m() == spec_inherit::<V>(m0, pv.subrange(0, i as int), prices),
        decreases p.entries.len() - i,
    {
        proof {
            assert(pv.subrange(0, i + 1).drop_last() =~= pv.subrange(0, i as int));
            assert(keys_of(pv)[i as int] == p.entries@[i as int].0@);
        }
        let entry = &p.entries[i];
        let price = match price_map.get(&entry.0) {
            Some(x) => x,
            None => 0,
        };
        trade_map.push_trade(&entry.0, price, entry.1.duplicate());
        i = i + 1;
    }
    proof {
        assert(pv.subrange(0, p.entries.len() as int) =~= pv);
    }
    true
}

/// Whether every symbol of a trade map has a market price.
pub fn all_symbols_priced<V: ZKPNLCalculable>(trade_map: &TradeMap<V>, price_map: &PriceMap) -> (r:
    bool)
    ensures
        r == all_priced(keys_of(trade_map.view_m()), price_map.view()),
{
    let ghost keys = keys_of(trade_map.view_m());
    let mut i: usize = 0;
    while i < trade_map.entries.len()
        invariant
            i <= trade_map.entries.len(),
            keys == keys_of(trade_map.view_m()),
            forall|k: int| 0 <= k < i ==> (#[trigger] price_of(price_map.view(), keys[k])) is Some,
        decreases trade_map.entries.len() - i,
    {
        if price_map.get(&trade_map.entries[i].0).is_none() {
            proof {
                assert(keys[i as int] == trade_map.entries@[i as int].0@);
            }
            return false;
        }
        i = i + 1;
    }
    true
}

} // verus!

//! Symbol-keyed maps that keep their symbols in the order in which they first
//! appeared: trades per symbol, prices per symbol, and portfolio sizes.
//!
//! They are association lists rather than `linked_hash_map::LinkedHashMap`:
//! the trade map holds values of either quantity type (plaintext integers or
//! linear combinations), and the verified arithmetic reads and extends its
//! entries in order, which a contents model of the outside map could only
//! give for one quantity type at a time. Distinct keys and first-seen order
//! are the maps' invariant (`wf`, `find_sym`, `spec_append`); the files on
//! disk still hold `LinkedHashMap`s, converted at the edge.
use vstd::prelude::*;
use crate::book::trades_model;
use crate::quantity::ZKPNLCalculable;

verus! {

/// The keys of an association list.
pub open spec fn keys_of<X>(m: Seq<(Seq<char>, X)>) -> Seq<Seq<char>> {
    m.map_values(|e: (Seq<char>, X)| e.0)
}

/// The keys of a list of entries held in `String`s.
pub open spec fn string_keys<X>(es: Seq<(String, X)>) -> Seq<Seq<char>> {
    es.map_values(|e: (String, X)| e.0@)
}

/// The position of `sym` among `keys`, or -1 where it is absent. Keys are
/// kept distinct, so this is the only position of `sym`.
pub open spec fn find_sym(keys: Seq<Seq<char>>, sym: Seq<char>) -> int
    decreases keys.len(),
{
    if keys.len() == 0 {
        -1
    } else if keys.last() == sym {
        keys.len() - 1
    } else {
        find_sym(keys.drop_last(), sym)
    }
}

/// No key occurs twice.
pub open spec fn distinct_keys(keys: Seq<Seq<char>>) -> bool {
    forall|i: int, j: int| 0 <= i < j < keys.len() ==> keys[i] != keys[j]
}

pub proof fn lemma_find_sym(keys: Seq<Seq<char>>, sym: Seq<char>)
    ensures
        -1 <= find_sym(keys, sym) < keys.len(),
        find_sym(keys, sym) >= 0 ==> keys[find_sym(keys, sym)] == sym,
        find_sym(keys, sym) == -1 <==> !keys.contains(sym),
    decreases keys.len(),
{
    if keys.len() > 0 {
        lemma_find_sym(keys.drop_last(), sym);
        if keys.last() != sym && keys.drop_last().contains(sym) {
            let k = choose|k: int| 0 <= k < keys.drop_last().len() && keys.drop_last()[k] == sym;
            assert(keys[k] == sym);
        }
        if keys.contains(sym) && keys.last() != sym {
            let k = choose|k: int| 0 <= k < keys.len() && keys[k] == sym;
            assert(keys.drop_last()[k] == sym);
        }
    }
}

proof fn lemma_find_sym_suffix(keys: Seq<Seq<char>>, sym: Seq<char>, i: int)
    requires
        0 <= i <= keys.len(),
        forall|j: int| i <= j < keys.len() ==> keys[j] != sym,
    ensures
        find_sym(keys, sym) == find_sym(keys.subrange(0, i), sym),
    decreases keys.len() - i,
{
    if i < keys.len() {
        assert(keys.drop_last() =~= keys.subrange(0, keys.len() - 1));
        lemma_find_sym_suffix(keys.drop_last(), sym, i);
        assert(keys.drop_last().subrange(0, i) =~= keys.subrange(0, i));
    } else {
        assert(keys.subrange(0, i) =~= keys);
    }
}

/// The position of `sym` among the entries' keys.
pub fn find_symbol<X>(entries: &Vec<(String, X)>, sym: &String) -> (r: Option<usize>)
    ensures
        match r {
            Some(i) => find_sym(string_keys(entries@), sym@) == i as int,
            None => find_sym(string_keys(entries@), sym@) == -1,
        },
{
    let ghost keys = string_keys(entries@);
    let mut i: usize = entries.len();
    while i > 0
        invariant
            i <= entries.len(),
            keys == string_keys(entries@),
            forall|j: int| i <= j < keys.len() ==> keys[j] != sym@,
        decreases i,
    {
        i = i - 1;
        if entries[i].0 == *sym {
            proof {
                lemma_find_sym_suffix(keys, sym@, i + 1);
                assert(keys.subrange(0, i + 1).drop_last() =~= keys.subrange(0, i as int));
            }
            return Some(i);
        }
    }
    proof {
        lemma_find_sym_suffix(keys, sym@, 0);
    }
    None
}

/// Appends `t` to the list of `sym`, creating it at the end where absent.
pub open spec fn spec_append<X>(m: Seq<(Seq<char>, Seq<X>)>, sym: Seq<char>, t: X) -> Seq<
    (Seq<char>, Seq<X>),
> {
    let i = find_sym(keys_of(m), sym);
    if i >= 0 {
        m.update(i, (sym, m[i].1.push(t)))
    } else {
        m.push((sym, seq![t]))
    }
}

/// Symbol → list of `(price, quantity)` trades, symbols in first-seen order.
pub struct TradeMap<V> {
    pub entries: Vec<(String, Vec<(i64, V)>)>,
}

impl<V: ZKPNLCalculable> TradeMap<V> {
    /// Each symbol with the models of its trades.
    pub open spec fn view_m(&self) -> Seq<(Seq<char>, Seq<(i64, V::Model)>)> {
        self.entries@.map_values(|e: (String, Vec<(i64, V)>)| (e.0@, trades_model(e.1@)))
    }

    pub open spec fn wf(&self) -> bool {
        distinct_keys(keys_of(self.view_m()))
    }

    pub fn new() -> (r: TradeMap<V>)
        ensures
            r.view_m() == Seq::<(Seq<char>, Seq<(i64, V::Model)>)>::empty(),
            r.wf(),
    {
        let r = TradeMap { entries: Vec::new() };
        assert(r.view_m() =~= Seq::<(Seq<char>, Seq<(i64, V::Model)>)>::empty());
        r
    }

    /// Appends the trade `(price, qty)` to the list of `symbol`.
    pub fn push_trade(&mut self, symbol: &String, price: i64, qty: V)
        requires
            old(self).wf(),
        ensures
            final(self).view_m() == spec_append(old(self).view_m(), symbol@, (price, qty.model())),
            final(self).wf(),
    {
        let ghost m = self.view_m();
        proof {
            assert(keys_of(m) =~= string_keys(self.entries@));
            lemma_find_sym(keys_of(m), symbol@);
        }
        match find_symbol(&self.entries, symbol) {
            Some(i) => {
                let mut e = self.entries.remove(i);
                e.1.push((price, qty));
                self.entries.insert(i, e);
                proof {
                    assert(trades_model(e.1@) =~= m[i as int].1.push((price, qty.model())));
                    assert(self.view_m() =~= m.update(
                        i as int,
                        (symbol@, m[i as int].1.push((price, qty.model()))),
                    ));
                    assert(keys_of(self.view_m()) =~= keys_of(m));
                }
            },
            None => {
                let mut v: Vec<(i64, V)> = Vec::new();
                v.push((price, qty));
                self.entries.push((symbol.clone(), v));
                proof {
                    assert(trades_model(v@) =~= seq![(price, qty.model())]);
                    assert(self.view_m() =~= m.push((symbol@, seq![(price, qty.model())])));
                    assert(keys_of(self.view_m()) =~= keys_of(m).push(symbol@));
                }
            },
        }
    }
}

/// Symbol → fixed-point price.
pub struct PriceMap {
    pub entries: Vec<(String, i64)>,
}

impl PriceMap {
    pub open spec fn view(&self) -> Seq<(Seq<char>, i64)> {
        self.entries@.map_values(|e: (String, i64)| (e.0@, e.1))
    }
}

/// The price of `sym`, where the map has one.
pub open spec fn price_of(prices: Seq<(Seq<char>, i64)>, sym: Seq<char>) -> Option<i64> {
    let i = find_sym(keys_of(prices), sym);
    if i >= 0 {
        Some(prices[i].1)
    } else {
        None
    }
}

impl PriceMap {
    /// A copy of the map.
    pub fn duplicate(&self) -> (r: PriceMap)
        ensures
            r.view() == self.view(),
    {
        let mut entries: Vec<(String, i64)> = Vec::new();
        let mut i: usize = 0;
        while i < self.entries.len()
            invariant
                i <= self.entries.len(),
                entries@.len() == i,
                forall|k: int|
                    0 <= k < i ==> (#[trigger] entries@[k]).0@ == self.entries@[k].0@
                        && entries@[k].1 == self.entries@[k].1,
            decreases self.entries.len() - i,
        {
            entries.push((self.entries[i].0.clone(), self.entries[i].1));
            i = i + 1;
        }
        let r = PriceMap { entries };
        assert(r.view() =~= self.view());
        r
    }

    /// The symbols of the map, in order.
    pub fn symbols(&self) -> (r: Vec<String>)
        ensures
            r@.len() == self.entries@.len(),
            forall|k: int| 0 <= k < r@.len() ==> #[trigger] r@[k] == self.entries@[k].0,
    {
        let mut r: Vec<String> = Vec::new();
        let mut i: usize = 0;
        while i < self.entries.len()
            invariant
                i <= self.entries.len(),
                r@.len() == i,
                forall|k: int| 0 <= k < i ==> #[trigger] r@[k] == self.entries@[k].0,
            decreases self.entries.len() - i,
        {
            r.push(self.entries[i].0.clone());
            i = i + 1;
        }
        r
    }

    /// The price of `symbol`.
    pub fn get(&self, symbol: &String) -> (r: Option<i64>)
        ensures
            r == price_of(self.view(), symbol@),
    {
        proof {
            assert(keys_of(self.view()) =~= string_keys(self.entries@));
            lemma_find_sym(keys_of(self.view()), symbol@);
        }
        match find_symbol(&self.entries, symbol) {
            Some(i) => Some(self.entries[i].1),
            None => None,
        }
    }
}

/// Symbol → position size.
pub struct PortMap<V> {
    pub entries: Vec<(String, V)>,
}

impl<V: ZKPNLCalculable> PortMap<V> {
    pub open spec fn view_m(&self) -> Seq<(Seq<char>, V::Model)> {
        self.entries@.map_values(|e: (String, V)| (e.0@, e.1.model()))
    }
}

} // verus!

use std::collections::HashMap;
use vstd::prelude::*;

use crate::normalize::str_eq;
use crate::symbols::{lookup, lookup_price, positive_price, usable_price, views, PriceInfo};

verus! {

/// An asset of the exchange's universe and its size precision.
#[derive(Clone, Debug)]
pub struct AssetInfo {
    pub name: String,
    pub sz_decimals: i32,
}

/// The size of the exchange's universe and its first assets.
#[derive(Clone, Debug)]
pub struct ExchangeMeta {
    pub total_assets: i32,
    pub assets: Vec<AssetInfo>,
}

/// One price level of an order book.
#[derive(Clone, Debug)]
pub struct OrderLevel {
    pub price: String,
    pub size: String,
}

/// The best levels of both sides of an order book.
#[derive(Clone, Debug)]
pub struct OrderbookData {
    pub bids: Vec<OrderLevel>,
    pub asks: Vec<OrderLevel>,
}

/// A token balance of an account.
#[derive(Clone, Debug)]
pub struct TokenBalance {
    pub coin: String,
    pub total: String,
    pub hold: String,
}

/// One candle of a price series.
#[derive(Clone, Debug)]
pub struct CandleData {
    pub time_open: u64,
    pub time_close: u64,
    pub coin: String,
    pub interval: String,
    pub open: String,
    pub close: String,
    pub high: String,
    pub low: String,
    pub volume: String,
    pub num_trades: u64,
}

/// One fill of an account's order.
#[derive(Clone, Debug)]
pub struct UserFill {
    pub coin: String,
    pub px: String,
    pub sz: String,
    pub side: String,
    pub time: u64,
    pub start_position: String,
    pub dir: String,
    pub closed_pnl: String,
    pub hash: String,
    pub oid: u64,
    pub crossed: bool,
    pub fee: Option<String>,
    pub tid: Option<u64>,
    pub fee_token: Option<String>,
}

/// How many levels of each book side are reported.
pub const BOOK_DEPTH: usize = 5;

/// How many assets an exchange summary lists.
pub const META_LISTED: usize = 10;

/// How many markets besides the bitcoin aliases a mid-price listing shows.
pub const OTHER_MIDS: usize = 15;

pub open spec fn level_views(v: Seq<OrderLevel>) -> Seq<(Seq<char>, Seq<char>)> {
    v.map_values(|l: OrderLevel| (l.price@, l.size@))
}

pub open spec fn asset_views(v: Seq<AssetInfo>) -> Seq<(Seq<char>, i32)> {
    v.map_values(|a: AssetInfo| (a.name@, a.sz_decimals))
}

pub open spec fn price_views(v: Seq<PriceInfo>) -> Seq<(Seq<char>, Seq<char>)> {
    v.map_values(|p: PriceInfo| (p.coin@, p.price@))
}

pub open spec fn min_len(n: nat, k: nat) -> nat {
    if n < k {
        n
    } else {
        k
    }
}

/// The first `n` levels of one side of a book, best first.
pub fn top_levels(levels: &Vec<OrderLevel>, n: usize) -> (r: Vec<OrderLevel>)
    ensures
        level_views(r@) == level_views(levels@).take(min_len(levels@.len(), n as nat) as int),
{
    let k = if levels.len() < n {
        levels.len()
    } else {
        n
    };
    let mut out: Vec<OrderLevel> = Vec::new();
    let mut i: usize = 0;
    while i < k
        invariant
            k <= levels@.len(),
            k == min_len(levels@.len(), n as nat),
            i <= k,
            level_views(out@) == level_views(levels@).take(i as int),
        decreases k - i,
    {
        let l = OrderLevel { price: levels[i].price.clone(), size: levels[i].size.clone() };
        let ghost prev = out@;
        out.push(l);
        proof {
            assert(level_views(out@) =~= level_views(prev).push(level_views(levels@)[i as int]));
            assert(level_views(levels@).take(i + 1) =~= level_views(levels@).take(i as int).push(
                level_views(levels@)[i as int],
            ));
        }
        i = i + 1;
    }
    out
}

/// An order book reduced to its best `BOOK_DEPTH` bids and asks.
pub fn orderbook_from_levels(bids: &Vec<OrderLevel>, asks: &Vec<OrderLevel>) -> (r: OrderbookData)
    ensures
        level_views(r.bids@) == level_views(bids@).take(
            min_len(bids@.len(), BOOK_DEPTH as nat) as int,
        ),
        level_views(r.asks@) == level_views(asks@).take(
            min_len(asks@.len(), BOOK_DEPTH as nat) as int,
        ),
{
    OrderbookData { bids: top_levels(bids, BOOK_DEPTH), asks: top_levels(asks, BOOK_DEPTH) }
}

/// A summary of the exchange's universe: its size and its first
/// `META_LISTED` assets.
pub fn summarize_meta(universe: &Vec<AssetInfo>) -> (r: ExchangeMeta)
    requires
        universe@.len() <= i32::MAX,
    ensures
        r.total_assets == universe@.len(),
        asset_views(r.assets@) == asset_views(universe@).take(
            min_len(universe@.len(), META_LISTED as nat) as int,
        ),
{
    let k = if universe.len() < META_LISTED {
        universe.len()
    } else {
        META_LISTED
    };
    let mut out: Vec<AssetInfo> = Vec::new();
    let mut i: usize = 0;
    while i < k
        invariant
            k <= universe@.len(),
            k == min_len(universe@.len(), META_LISTED as nat),
            i <= k,
            asset_views(out@) == asset_views(universe@).take(i as int),
        decreases k - i,
    {
        let a = AssetInfo { name: universe[i].name.clone(), sz_decimals: universe[i].sz_decimals };
        let ghost prev = out@;
        out.push(a);
        proof {
            assert(asset_views(out@) =~= asset_views(prev).push(asset_views(universe@)[i as int]));
            assert(asset_views(universe@).take(i + 1) =~= asset_views(universe@).take(
                i as int,
            ).push(asset_views(universe@)[i as int]));
        }
        i = i + 1;
    }
    ExchangeMeta { total_assets: universe.len() as i32, assets: out }
}

/// The aliases that the snapshot prices above zero, in alias order, each
/// with its price.
pub open spec fn alias_entries(aliases: Seq<Seq<char>>, snap: Seq<PriceInfo>) -> Seq<
    (Seq<char>, Seq<char>),
>
    decreases aliases.len(),
{
    if aliases.len() == 0 {
        Seq::empty()
    } else {
        let rest = alias_entries(aliases.drop_last(), snap);
        match lookup(snap, aliases.last()) {
            Some(p) => if usable_price(p) is Some {
                rest.push((aliases.last(), p))
            } else {
                rest
            },
            None => rest,
        }
    }
}

/// The snapshot entries priced above zero whose market is none of the
/// aliases, in snapshot order.
pub open spec fn other_entries(aliases: Seq<Seq<char>>, snap: Seq<PriceInfo>) -> Seq<
    (Seq<char>, Seq<char>),
>
    decreases snap.len(),
{
    if snap.len() == 0 {
        Seq::empty()
    } else {
        let rest = other_entries(aliases, snap.drop_last());
        if aliases.contains(snap.last().coin@) || usable_price(snap.last().price@) is None {
            rest
        } else {
            rest.push((snap.last().coin@, snap.last().price@))
        }
    }
}

proof fn lemma_other_entries_prefix(aliases: Seq<Seq<char>>, snap: Seq<PriceInfo>, i: int)
    requires
        0 <= i <= snap.len(),
    ensures
        other_entries(aliases, snap.take(i)).len() <= other_entries(aliases, snap).len(),
        other_entries(aliases, snap.take(i)) == other_entries(aliases, snap).take(
            other_entries(aliases, snap.take(i)).len() as int,
        ),
    decreases snap.len(),
{
    if i == snap.len() {
        assert(snap.take(i) =~= snap);
        assert(other_entries(aliases, snap).take(other_entries(aliases, snap).len() as int)
            =~= other_entries(aliases, snap));
    } else {
        lemma_other_entries_prefix(aliases, snap.drop_last(), i);
        assert(snap.drop_last().take(i) =~= snap.take(i));
        let whole = other_entries(aliases, snap);
        let front = other_entries(aliases, snap.drop_last());
        let part = other_entries(aliases, snap.take(i));
        assert(whole.take(part.len() as int) =~= front.take(part.len() as int));
    }
}

/// Whether `coin` is one of `aliases`.
fn is_alias(aliases: &Vec<String>, coin: &str) -> (r: bool)
    ensures
        r == views(aliases@).contains(coin@),
{
    let mut i: usize = 0;
    while i < aliases.len()
        invariant
            i <= aliases@.len(),
            forall|j: int| 0 <= j < i ==> aliases@[j]@ != coin@,
        decreases aliases.len() - i,
    {
        if str_eq(aliases[i].as_str(), coin) {
            proof {
                assert(views(aliases@)[i as int] == coin@);
            }
            return true;
        }
        i = i + 1;
    }
    proof {
        if views(aliases@).contains(coin@) {
            let j = choose|j: int| 0 <= j < views(aliases@).len() && views(aliases@)[j] == coin@;
            assert(aliases@[j]@ == coin@);
        }
    }
    false
}

/// A mid-price listing: first every alias that the snapshot prices, in alias
/// order, then up to `OTHER_MIDS` other markets in snapshot order. Entries
/// priced at zero or at unreadable text count as absent.
pub fn select_mids(aliases: &Vec<String>, snap: &Vec<PriceInfo>) -> (r: Vec<PriceInfo>)
    ensures
        forall|k: int| 0 <= k < r@.len() ==> usable_price(#[trigger] r@[k].price@) is Some,
        price_views(r@) == alias_entries(views(aliases@), snap@) + other_entries(
            views(aliases@),
            snap@,
        ).take(min_len(other_entries(views(aliases@), snap@).len(), OTHER_MIDS as nat) as int),
{
    let ghost av = views(aliases@);
    let mut out: Vec<PriceInfo> = Vec::new();
    let mut i: usize = 0;
    while i < aliases.len()
        invariant
            i <= aliases@.len(),
            av == views(aliases@),
            price_views(out@) == alias_entries(av.take(i as int), snap@),
            forall|k: int| 0 <= k < out@.len() ==> usable_price(#[trigger] out@[k].price@) is Some,
        decreases aliases.len() - i,
    {
        proof {
            assert(av.take(i + 1).drop_last() =~= av.take(i as int));
            assert(av.take(i + 1).last() == aliases@[i as int]@);
        }
        match lookup_price(snap, aliases[i].as_str()) {
            Some(p) => {
                if positive_price(p.as_str()).is_some() {
                    out.push(PriceInfo { coin: aliases[i].clone(), price: p });
                    proof {
                        assert(price_views(out@) =~= alias_entries(av.take(i as int), snap@).push(
                            (aliases@[i as int]@, out@.last().price@),
                        ));
                    }
                }
            },
            None => {},
        }
        i = i + 1;
    }
    assert(av.take(aliases@.len() as int) =~= av);
    let ghost head = price_views(out@);
    let mut count: usize = 0;
    let mut j: usize = 0;
    while j < snap.len() && count < OTHER_MIDS
        invariant
            j <= snap@.len(),
            av == views(aliases@),
            head == alias_entries(av, snap@),
            count == other_entries(av, snap@.take(j as int)).len(),
            count <= OTHER_MIDS,
            price_views(out@) == head + other_entries(av, snap@.take(j as int)),
            forall|k: int| 0 <= k < out@.len() ==> usable_price(#[trigger] out@[k].price@) is Some,
        decreases snap.len() - j,
    {
        proof {
            assert(snap@.take(j + 1).drop_last() =~= snap@.take(j as int));
            assert(snap@.take(j + 1).last() == snap@[j as int]);
        }
        if !is_alias(aliases, snap[j].coin.as_str()) && positive_price(snap[j].price.as_str()).is_some() {
            let ghost prev = out@;
            out.push(PriceInfo { coin: snap[j].coin.clone(), price: snap[j].price.clone() });
            count = count + 1;
            proof {
                assert(price_views(out@) =~= price_views(prev).push(
                    (snap@[j as int].coin@, snap@[j as int].price@),
                ));
                assert(price_views(out@) =~= head + other_entries(av, snap@.take(j as int)).push(
                    (snap@[j as int].coin@, snap@[j as int].price@),
                ));
            }
        }
        j = j + 1;
    }
    proof {
        let all = other_entries(av, snap@);
        let part = other_entries(av, snap@.take(j as int));
        lemma_other_entries_prefix(av, snap@, j as int);
        if j == snap@.len() {
            assert(snap@.take(j as int) =~= snap@);
            if all.len() <= OTHER_MIDS {
                assert(all.take(all.len() as int) =~= all);
            }
        }
    }
    out
}

/// The last name registered for a token index.
pub open spec fn token_name(tokens: Seq<(usize, Seq<char>)>, index: usize) -> Option<Seq<char>>
    decreases tokens.len(),
{
    if tokens.len() == 0 {
        None
    } else if tokens.last().0 == index {
        Some(tokens.last().1)
    } else {
        token_name(tokens.drop_last(), index)
    }
}

pub open spec fn token_views(v: Seq<(usize, String)>) -> Seq<(usize, Seq<char>)> {
    v.map_values(|t: (usize, String)| (t.0, t.1@))
}

/// `"BASE/QUOTE"` for each pair whose two tokens are both named, in pair
/// order.
pub open spec fn pair_names(tokens: Seq<(usize, Seq<char>)>, pairs: Seq<(usize, usize)>) -> Seq<
    Seq<char>,
>
    decreases pairs.len(),
{
    if pairs.len() == 0 {
        Seq::empty()
    } else {
        let rest = pair_names(tokens, pairs.drop_last());
        match (token_name(tokens, pairs.last().0), token_name(tokens, pairs.last().1)) {
            (Some(a), Some(b)) => rest.push(a + "/"@ + b),
            _ => rest,
        }
    }
}

/// What a map from token index to name gives for `index`.
pub open spec fn map_name(m: Map<usize, String>, index: usize) -> Option<Seq<char>> {
    if m.contains_key(index) {
        Some(m[index]@)
    } else {
        None
    }
}

fn pair_name(names: &HashMap<usize, String>, index: usize) -> (r: Option<String>)
    ensures
        match map_name(names@, index) {
            Some(n) => r matches Some(s) && s@ == n,
            None => r is None,
        },
{
    broadcast use vstd::std_specs::hash::group_hash_axioms;

    match names.get(&index) {
        Some(n) => Some(n.clone()),
        None => None,
    }
}

/// Names the spot pairs `(base index, quote index)` as `"BASE/QUOTE"` by
/// their token indices; a pair with an unknown token is left out. When an
/// index is registered twice, the later name counts.
pub fn spot_pair_names(tokens: &Vec<(usize, String)>, pairs: &Vec<(usize, usize)>) -> (r: Vec<
    String,
>)
    ensures
        views(r@) == pair_names(token_views(tokens@), pairs@),
{
    broadcast use vstd::std_specs::hash::group_hash_axioms;

    let ghost tv = token_views(tokens@);
    let mut names: HashMap<usize, String> = HashMap::new();
    let mut t: usize = 0;
    while t < tokens.len()
        invariant
            t <= tokens@.len(),
            tv == token_views(tokens@),
            forall|idx: usize| #[trigger] token_name(tv.take(t as int), idx) == map_name(names@, idx),
        decreases tokens.len() - t,
    {
        proof {
            assert(tv.take(t + 1).drop_last() =~= tv.take(t as int));
            assert(tv.take(t + 1).last() == (tokens@[t as int].0, tokens@[t as int].1@));
        }
        let key = tokens[t].0;
        names.insert(key, tokens[t].1.clone());
        proof {
            assert forall|idx: usize| #[trigger] token_name(tv.take(t + 1), idx) == map_name(
                names@,
                idx,
            ) by {
                assert(token_name(tv.take(t as int), idx) == map_name(names@, idx) || idx == key);
            }
        }
        t = t + 1;
    }
    assert(tv.take(tokens@.len() as int) =~= tv);
    let mut out: Vec<String> = Vec::new();
    let mut i: usize = 0;
    while i < pairs.len()
        invariant
            i <= pairs@.len(),
            tv == token_views(tokens@),
            forall|idx: usize| #[trigger] token_name(tv, idx) == map_name(names@, idx),
            views(out@) == pair_names(tv, pairs@.take(i as int)),
        decreases pairs.len() - i,
    {
        proof {
            assert(pairs@.take(i + 1).drop_last() =~= pairs@.take(i as int));
            assert(pairs@.take(i + 1).last() == pairs@[i as int]);
        }
        let (a, b) = pairs[i];
        proof {
            assert(token_name(tv, a) == map_name(names@, a));
            assert(token_name(tv, b) == map_name(names@, b));
        }
        match (pair_name(&names, a), pair_name(&names, b)) {
            (Some(x), Some(y)) => {
                let name = x.concat("/").concat(y.as_str());
                proof {
                    reveal_strlit("/");
                }
                out.push(name);
                proof {
                    assert(views(out@) =~= pair_names(tv, pairs@.take(i as int)).push(
                        out@.last()@,
                    ));
                }
            },
            _ => {},
        }
        i = i + 1;
    }
    assert(pairs@.take(pairs@.len() as int) =~= pairs@);
    out
}

} // verus!

use vstd::prelude::*;

use crate::decimal::{parse_decimal, parse_spec, Decimal};
use crate::normalize::str_eq;

verus! {

/// A market identifier and its price, as the exchange wrote it.
#[derive(Clone, Debug)]
pub struct PriceInfo {
    pub coin: String,
    pub price: String,
}

/// A market chosen for an asset, with its positive reference price.
#[derive(Clone, Debug)]
pub struct Quote {
    pub market: String,
    pub price_text: String,
    pub price: Decimal,
}

/// The price text of the first snapshot entry named `market`.
pub open spec fn lookup(snap: Seq<PriceInfo>, market: Seq<char>) -> Option<Seq<char>>
    decreases snap.len(),
{
    if snap.len() == 0 {
        None
    } else if snap[0].coin@ == market {
        Some(snap[0].price@)
    } else {
        lookup(snap.drop_first(), market)
    }
}

/// A price text that reads as a strictly positive decimal.
pub open spec fn usable_price(text: Seq<char>) -> Option<Decimal> {
    match parse_spec(text) {
        Some(d) => if d.units > 0 {
            Some(d)
        } else {
            None
        },
        None => None,
    }
}

/// The first alias, in priority order, that the snapshot prices strictly
/// above zero, with that price's text and value.
pub open spec fn resolve_spec(aliases: Seq<Seq<char>>, snap: Seq<PriceInfo>) -> Option<
    (Seq<char>, Seq<char>, Decimal),
>
    decreases aliases.len(),
{
    if aliases.len() == 0 {
        None
    } else {
        match lookup(snap, aliases[0]) {
            Some(t) => match usable_price(t) {
                Some(d) => Some((aliases[0], t, d)),
                None => resolve_spec(aliases.drop_first(), snap),
            },
            None => resolve_spec(aliases.drop_first(), snap),
        }
    }
}

/// The views of a list of strings.
pub open spec fn views(v: Seq<String>) -> Seq<Seq<char>> {
    v.map_values(|s: String| s@)
}

proof fn lemma_lookup_split(snap: Seq<PriceInfo>, market: Seq<char>, i: int)
    requires
        0 <= i < snap.len(),
        forall|j: int| 0 <= j < i ==> snap[j].coin@ != market,
    ensures
        lookup(snap, market) == (if snap[i].coin@ == market {
            Some(snap[i].price@)
        } else {
            lookup(snap.subrange(i + 1, snap.len() as int), market)
        }),
    decreases i,
{
    if i > 0 {
        lemma_lookup_split(snap.drop_first(), market, i - 1);
        assert(snap.drop_first().subrange(i, snap.len() - 1) =~= snap.subrange(
            i + 1,
            snap.len() as int,
        ));
    } else {
        assert(snap.drop_first() =~= snap.subrange(1, snap.len() as int));
    }
}

/// The price text that `snap` gives for `market`.
pub fn lookup_price(snap: &Vec<PriceInfo>, market: &str) -> (r: Option<String>)
    ensures
        r matches Some(t) ==> lookup(snap@, market@) == Some(t@),
        r is None ==> lookup(snap@, market@) is None,
{
    let mut i: usize = 0;
    assert(snap@.subrange(0, snap@.len() as int) =~= snap@);
    while i < snap.len()
        invariant
            i <= snap@.len(),
            forall|j: int| 0 <= j < i ==> snap@[j].coin@ != market@,
            lookup(snap@, market@) == lookup(snap@.subrange(i as int, snap@.len() as int), market@),
        decreases snap.len() - i,
    {
        proof {
            lemma_lookup_split(snap@, market@, i as int);
            let rest = snap@.subrange(i as int, snap@.len() as int);
            assert(rest.drop_first() =~= snap@.subrange(i + 1, snap@.len() as int));
        }
        if str_eq(snap[i].coin.as_str(), market) {
            return Some(snap[i].price.clone());
        }
        i = i + 1;
    }
    None
}

/// Reads a price text, keeping it only when it is strictly positive.
pub fn positive_price(text: &str) -> (r: Option<Decimal>)
    ensures
        r == usable_price(text@),
        r matches Some(d) ==> d.wf(),
{
    match parse_decimal(text) {
        Some(d) => if d.units > 0 {
            Some(d)
        } else {
            None
        },
        None => None,
    }
}

/// Picks the market for an asset: the first alias, in priority order, that
/// the snapshot prices strictly above zero. Aliases missing from the
/// snapshot, or priced at zero or at unreadable text, are passed over.
pub fn resolve(aliases: &Vec<String>, snap: &Vec<PriceInfo>) -> (r: Option<Quote>)
    ensures
        match resolve_spec(views(aliases@), snap@) {
            None => r is None,
            Some((m, t, d)) => r matches Some(q) && q.market@ == m && q.price_text@ == t
                && q.price == d,
        },
        r matches Some(q) ==> q.price.wf() && q.price.units > 0,
{
    let mut i: usize = 0;
    assert(views(aliases@).subrange(0, aliases@.len() as int) =~= views(aliases@));
    while i < aliases.len()
        invariant
            i <= aliases@.len(),
            resolve_spec(views(aliases@), snap@) == resolve_spec(
                views(aliases@).subrange(i as int, aliases@.len() as int),
                snap@,
            ),
        decreases aliases.len() - i,
    {
        let ghost rest = views(aliases@).subrange(i as int, aliases@.len() as int);
        proof {
            assert(rest[0] == aliases@[i as int]@);
            assert(rest.drop_first() =~= views(aliases@).subrange(i + 1, aliases@.len() as int));
        }
        match lookup_price(snap, aliases[i].as_str()) {
            Some(t) => match positive_price(t.as_str()) {
                Some(d) => {
                    return Some(Quote { market: aliases[i].clone(), price_text: t, price: d });
                },
                None => {},
            },
            None => {},
        }
        i = i + 1;
    }
    proof {
        assert(views(aliases@).subrange(i as int, aliases@.len() as int).len() == 0);
    }
    None
}

/// Resolution depends on the alias list and the snapshot alone: any two
/// results that meet `resolve`'s contract on the same inputs are the same
/// market, price text and price.
pub proof fn lemma_resolve_deterministic(
    aliases: Seq<Seq<char>>,
    snap: Seq<PriceInfo>,
    first: Option<(Seq<char>, Seq<char>, Decimal)>,
    second: Option<(Seq<char>, Seq<char>, Decimal)>,
)
    requires
        first == resolve_spec(aliases, snap),
        second == resolve_spec(aliases, snap),
    ensures
        first == second,
{
}

/// What resolution picks: when it gives `(m, t, d)`, `m` is the alias at
/// some position `i`, the snapshot prices it at `t`, which reads as the
/// positive `d`, and no alias before `i` has a usable price; when it gives
/// nothing, no alias has one.
pub proof fn lemma_resolve_first_usable(aliases: Seq<Seq<char>>, snap: Seq<PriceInfo>)
    ensures
        match resolve_spec(aliases, snap) {
            Some((m, t, d)) => exists|i: int|
                0 <= i < aliases.len() && aliases[i] == m && lookup(snap, m) == Some(t)
                    && usable_price(t) == Some(d) && d.units > 0 && (forall|j: int|
                    0 <= j < i ==> !(#[trigger] lookup(snap, aliases[j]) matches Some(u)
                        && usable_price(u) is Some)),
            None => forall|j: int|
                0 <= j < aliases.len() ==> !(#[trigger] lookup(snap, aliases[j]) matches Some(u)
                    && usable_price(u) is Some),
        },
    decreases aliases.len(),
{
    if aliases.len() > 0 {
        let rest = aliases.drop_first();
        lemma_resolve_first_usable(rest, snap);
        assert forall|j: int| 0 < j < aliases.len() implies aliases[j] == rest[j - 1] by {}
        let first_usable = lookup(snap, aliases[0]) matches Some(u) && usable_price(u) is Some;
        if first_usable {
            assert(0 <= 0 < aliases.len() && aliases[0] == aliases[0]);
        } else {
            match resolve_spec(rest, snap) {
                Some((m, t, d)) => {
                    let k = choose|k: int|
                        0 <= k < rest.len() && rest[k] == m && lookup(snap, m) == Some(t)
                            && usable_price(t) == Some(d) && d.units > 0 && (forall|j: int|
                            0 <= j < k ==> !(#[trigger] lookup(snap, rest[j]) matches Some(u)
                                && usable_price(u) is Some));
                    assert(aliases[k + 1] == m);
                    assert forall|j: int| 0 <= j < k + 1 implies !(#[trigger] lookup(
                        snap,
                        aliases[j],
                    ) matches Some(u) && usable_price(u) is Some) by {
                        if j > 0 {
                            assert(aliases[j] == rest[j - 1]);
                        }
                    }
                },
                None => {
                    assert forall|j: int| 0 <= j < aliases.len() implies !(#[trigger] lookup(
                        snap,
                        aliases[j],
                    ) matches Some(u) && usable_price(u) is Some) by {
                        if j > 0 {
                            assert(aliases[j] == rest[j - 1]);
                        }
                    }
                },
            }
        }
    }
}

pub open spec fn btc_aliases_spec() -> Seq<Seq<char>> {
    seq!["@142"@, "BTC"@, "UBTC"@, "BTC/USDC"@, "UBTC/USDC"@]
}

/// Every market identifier that has stood for bitcoin, in priority order:
/// the numeric spot index, the perpetual, the wrapped token and the pairs.
pub fn btc_aliases() -> (r: Vec<String>)
    ensures
        views(r@) == btc_aliases_spec(),
{
    let mut v: Vec<String> = Vec::new();
    v.push(String::from_str("@142"));
    v.push(String::from_str("BTC"));
    v.push(String::from_str("UBTC"));
    v.push(String::from_str("BTC/USDC"));
    v.push(String::from_str("UBTC/USDC"));
    assert(views(v@) =~= btc_aliases_spec());
    v
}

/// The bitcoin price of a snapshot: the first bitcoin alias priced above
/// zero, or `None` when there is none.
pub fn btc_price(snap: &Vec<PriceInfo>) -> (r: Option<Quote>)
    ensures
        match resolve_spec(btc_aliases_spec(), snap@) {
            None => r is None,
            Some((m, t, d)) => r matches Some(q) && q.market@ == m && q.price_text@ == t
                && q.price == d,
        },
{
    let aliases = btc_aliases();
    resolve(&aliases, snap)
}

/// The market identifiers that stand for a logical asset, in priority
/// order: the bitcoin aliases for `"BTC"`, the asset's own name otherwise.
pub open spec fn aliases_for_spec(asset: Seq<char>) -> Seq<Seq<char>> {
    if asset == "BTC"@ {
        btc_aliases_spec()
    } else {
        seq![asset]
    }
}

pub fn aliases_for(asset: &str) -> (r: Vec<String>)
    ensures
        views(r@) == aliases_for_spec(asset@),
{
    if str_eq(asset, "BTC") {
        btc_aliases()
    } else {
        let mut v: Vec<String> = Vec::new();
        v.push(String::from_str(asset));
        assert(views(v@) =~= seq![asset@]);
        v
    }
}

} // verus!

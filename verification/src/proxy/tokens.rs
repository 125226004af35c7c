//! Where a request may carry the share token: its query, a cookie or the referring page.
use crate::text::chars;
use crate::text::chars::same;
use crate::text::class;
use crate::text::class::{split_by, split_once_by, trim_space, CharClass};
use crate::text::search;
use crate::text::search::join;
use vstd::prelude::*;

verus! {

/// The path of a URI and its query; the query is empty if there is none.
pub open spec fn uri_parts(uri: Seq<char>) -> (Seq<char>, Seq<char>) {
    match class::split_once(uri, CharClass::Char('?')) {
        Some(parts) => parts,
        None => (uri, seq![]),
    }
}

/// The name of a query pair: what stands before its first equals sign, or all of it.
pub open spec fn pair_name(pair: Seq<char>) -> Seq<char> {
    match class::split_once(pair, CharClass::Char('=')) {
        Some((name, _)) => name,
        None => pair,
    }
}

/// The value of a query pair: what stands behind its first equals sign, or nothing.
pub open spec fn pair_value(pair: Seq<char>) -> Seq<char> {
    match class::split_once(pair, CharClass::Char('=')) {
        Some((_, value)) => value,
        None => seq![],
    }
}

/// Whether a query pair carries the share token.
pub open spec fn is_token_pair(pair: Seq<char>) -> bool {
    pair.len() > 0 && pair_name(pair) == "ltg_token"@
}

/// The query pairs that are passed on: all but the empty ones and those with the share token.
pub open spec fn kept_pairs(pairs: Seq<Seq<char>>) -> Seq<Seq<char>>
    decreases pairs.len(),
{
    if pairs.len() == 0 {
        seq![]
    } else if pairs[0].len() == 0 || is_token_pair(pairs[0]) {
        kept_pairs(pairs.skip(1))
    } else {
        seq![pairs[0]] + kept_pairs(pairs.skip(1))
    }
}

/// The share token that the query pairs carry; the last one counts.
pub open spec fn pairs_token(pairs: Seq<Seq<char>>) -> Option<Seq<char>>
    decreases pairs.len(),
{
    if pairs.len() == 0 {
        None
    } else if is_token_pair(pairs.last()) {
        Some(pair_value(pairs.last()))
    } else {
        pairs_token(pairs.drop_last())
    }
}

/// A query without its token pairs.
pub open spec fn query_without_token(query: Seq<char>) -> Seq<char> {
    search::joined(kept_pairs(class::split(query, CharClass::Char('&'))), "&"@)
}

/// The share token in a query.
pub open spec fn query_token(query: Seq<char>) -> Option<Seq<char>> {
    pairs_token(class::split(query, CharClass::Char('&')))
}

/// The value of the first cookie called `name`. A cookie without an equals sign ends the search.
pub open spec fn cookie_among(cookies: Seq<Seq<char>>, name: Seq<char>) -> Option<Seq<char>>
    decreases cookies.len(),
{
    if cookies.len() == 0 {
        None
    } else {
        match class::split_once(class::trimmed(cookies[0]), CharClass::Char('=')) {
            Some((n, v)) => if class::trimmed(n) == name {
                Some(class::trimmed(v))
            } else {
                cookie_among(cookies.skip(1), name)
            },
            None => None,
        }
    }
}

/// The value of the cookie called `name` in a `Cookie` header.
pub open spec fn cookie(header: Seq<char>, name: Seq<char>) -> Option<Seq<char>> {
    cookie_among(class::split(header, CharClass::Char(';')), name)
}

/// The share token in the query of a referring page, before any fragment.
pub open spec fn referer_token(referer: Seq<char>) -> Option<Seq<char>> {
    match class::split_once(referer, CharClass::Char('?')) {
        Some((_, rest)) => query_token(class::split(rest, CharClass::Char('#'))[0]),
        None => None,
    }
}

/// Splits a URI at its first question mark into its path and its query.
pub fn split_uri(uri: &str) -> (r: (String, String))
    ensures
        (r.0@, r.1@) == uri_parts(uri@),
{
    match split_once_by(uri, CharClass::Char('?')) {
        Some(parts) => parts,
        None => (uri.to_owned(), String::new()),
    }
}

/// The value of the cookie called `name` in a `Cookie` header.
pub fn cookie_value(header: &str, name: &str) -> (r: Option<String>)
    ensures
        chars::opt_text(r) == cookie(header@, name@),
{
    let cookies = split_by(header, CharClass::Char(';'));
    let ghost all = chars::texts(cookies@);
    let mut i: usize = 0;
    assert(all.skip(0) =~= all);
    while i < cookies.len()
        invariant
            i <= cookies@.len(),
            all == chars::texts(cookies@),
            all == class::split(header@, CharClass::Char(';')),
            cookie_among(all, name@) == cookie_among(all.skip(i as int), name@),
        decreases cookies@.len() - i,
    {
        assert(all.skip(i as int).skip(1) =~= all.skip(i + 1));
        assert(all.skip(i as int)[0] == cookies@[i as int]@);
        let entry = trim_space(cookies[i].as_str());
        match split_once_by(entry.as_str(), CharClass::Char('=')) {
            Some((n, v)) => {
                if same(trim_space(n.as_str()).as_str(), name) {
                    return Some(trim_space(v.as_str()));
                }
            },
            None => {
                return None;
            },
        }
        i += 1;
    }
    None
}

/// Takes the share token out of a query: the query without it, and the token.
pub fn strip_token_from_query(query: &str) -> (r: (String, Option<String>))
    ensures
        r.0@ == query_without_token(query@),
        chars::opt_text(r.1) == query_token(query@),
{
    let pairs = split_by(query, CharClass::Char('&'));
    let ghost all = chars::texts(pairs@);
    let mut kept: Vec<String> = Vec::new();
    let mut token: Option<String> = None;
    let mut i: usize = 0;
    assert(all.skip(0) =~= all);
    assert(chars::texts(kept@) =~= Seq::<Seq<char>>::empty());
    while i < pairs.len()
        invariant
            i <= pairs@.len(),
            all == chars::texts(pairs@),
            kept_pairs(all) =~= chars::texts(kept@) + kept_pairs(all.skip(i as int)),
            chars::opt_text(token) == pairs_token(all.take(i as int)),
        decreases pairs@.len() - i,
    {
        let pair = pairs[i].as_str();
        let ghost before = kept@;
        proof {
            assert(all.skip(i as int).skip(1) =~= all.skip(i + 1));
            assert(all.skip(i as int)[0] == pair@);
            assert(all.take(i + 1).drop_last() =~= all.take(i as int));
            assert(all.take(i + 1).last() == pair@);
        }
        if !pair.is_empty() {
            let (name, value) = match split_once_by(pair, CharClass::Char('=')) {
                Some(parts) => parts,
                None => (pair.to_owned(), String::new()),
            };
            if same(name.as_str(), "ltg_token") {
                token = Some(value);
            } else {
                kept.push(pair.to_owned());
                assert(chars::texts(kept@) =~= chars::texts(before).push(pair@));
            }
        }
        i += 1;
    }
    assert(all.take(all.len() as int) =~= all);
    assert(kept_pairs(all.skip(all.len() as int)) =~= Seq::<Seq<char>>::empty());
    assert(chars::texts(kept@) =~= kept_pairs(all));
    (join(&kept, "&"), token)
}

/// The share token in the query of a referring page.
pub fn token_from_referer(referer: &str) -> (r: Option<String>)
    ensures
        chars::opt_text(r) == referer_token(referer@),
{
    match split_once_by(referer, CharClass::Char('?')) {
        Some((_, rest)) => {
            let parts = split_by(rest.as_str(), CharClass::Char('#'));
            assert(chars::texts(parts@)[0] == parts@[0]@) by {
                assert(class::split(rest@, CharClass::Char('#')).len() > 0);
            }
            strip_token_from_query(parts[0].as_str()).1
        },
        None => None,
    }
}

} // verus!

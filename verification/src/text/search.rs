//! Text inside text: searching, replacing, splitting at a separator and joining with one.
use crate::text::chars;
use crate::text::chars::{chars_of, substring};
use vstd::prelude::*;

verus! {

/// Whether `s` begins with `p`.
pub open spec fn begins<T>(s: Seq<T>, p: Seq<T>) -> bool {
    p.len() <= s.len() && s.take(p.len() as int) == p
}

/// Whether `s` ends with `p`.
pub open spec fn ends<T>(s: Seq<T>, p: Seq<T>) -> bool {
    p.len() <= s.len() && s.skip(s.len() - p.len()) == p
}

/// Where `p` first stands in `s`.
pub open spec fn find<T>(s: Seq<T>, p: Seq<T>) -> Option<int>
    decreases s.len(),
{
    if begins(s, p) {
        Some(0)
    } else if s.len() == 0 {
        None
    } else {
        match find(s.skip(1), p) {
            Some(i) => Some(i + 1),
            None => None,
        }
    }
}

/// Where `p` last stands in `s`.
pub open spec fn rfind<T>(s: Seq<T>, p: Seq<T>) -> Option<int>
    decreases s.len(),
{
    if ends(s, p) {
        Some(s.len() - p.len())
    } else if s.len() == 0 {
        None
    } else {
        rfind(s.drop_last(), p)
    }
}

/// Whether `p` stands anywhere in `s`.
pub open spec fn contains<T>(s: Seq<T>, p: Seq<T>) -> bool {
    find(s, p) is Some
}

/// `s` with every `from`, taken from the left without overlap, replaced by `to`.
pub open spec fn replace(s: Seq<char>, from: Seq<char>, to: Seq<char>) -> Seq<char>
    decreases s.len(),
{
    match find(s, from) {
        Some(i) => if from.len() > 0 && 0 <= i && i + from.len() <= s.len() {
            s.take(i) + to + replace(s.skip(i + from.len()), from, to)
        } else {
            s
        },
        None => s,
    }
}

/// The pieces of `s` between the occurrences of `sep`, taken from the left without overlap.
pub open spec fn split_at_all(s: Seq<char>, sep: Seq<char>) -> Seq<Seq<char>>
    decreases s.len(),
{
    match find(s, sep) {
        Some(i) => if sep.len() > 0 && 0 <= i && i + sep.len() <= s.len() {
            seq![s.take(i)] + split_at_all(s.skip(i + sep.len()), sep)
        } else {
            seq![s]
        },
        None => seq![s],
    }
}

/// The pieces one after the other, with `sep` between each two.
pub open spec fn joined(pieces: Seq<Seq<char>>, sep: Seq<char>) -> Seq<char>
    decreases pieces.len(),
{
    if pieces.len() == 0 {
        seq![]
    } else if pieces.len() == 1 {
        pieces[0]
    } else {
        pieces[0] + sep + joined(pieces.skip(1), sep)
    }
}

/// A position that `find` gives holds the pattern, and no earlier one does.
pub proof fn lemma_find<T>(s: Seq<T>, p: Seq<T>)
    ensures
        match find(s, p) {
            Some(i) => {
                &&& 0 <= i
                &&& i + p.len() <= s.len()
                &&& s.subrange(i, i + p.len()) == p
                &&& forall|j: int| 0 <= j < i ==> !begins(#[trigger] s.skip(j), p)
            },
            None => forall|j: int| 0 <= j <= s.len() ==> !begins(#[trigger] s.skip(j), p),
        },
    decreases s.len(),
{
    assert(s.skip(0) =~= s);
    if begins(s, p) {
        assert(s.subrange(0, p.len() as int) =~= s.take(p.len() as int));
    } else if s.len() > 0 {
        let t = s.skip(1);
        lemma_find(t, p);
        assert forall|j: int|
            0 <= j <= s.len() && (find(s, p) matches Some(i) ==> j < i) implies !begins(
            #[trigger] s.skip(j),
            p,
        ) by {
            if j > 0 {
                assert(t.skip(j - 1) =~= s.skip(j));
            }
        }
        if find(t, p) is Some {
            let i = find(t, p)->0;
            assert(t.subrange(i, i + p.len()) =~= s.subrange(i + 1, i + 1 + p.len()));
        }
    } else {
        assert forall|j: int| 0 <= j <= s.len() implies !begins(#[trigger] s.skip(j), p) by {
            assert(s.skip(j) =~= s);
        }
    }
}

/// The first position that holds the pattern is the one that `find` gives.
pub proof fn lemma_find_is<T>(s: Seq<T>, p: Seq<T>, i: int)
    requires
        0 <= i <= s.len(),
        begins(s.skip(i), p),
        forall|j: int| 0 <= j < i ==> !begins(#[trigger] s.skip(j), p),
    ensures
        find(s, p) == Some(i),
{
    lemma_find(s, p);
    match find(s, p) {
        Some(r) => {
            if r < i {
                assert(s.skip(r).take(p.len() as int) =~= s.subrange(r, r + p.len()));
                assert(begins(s.skip(r), p));
            } else if i < r {
                assert(!begins(s.skip(i), p));
            }
        },
        None => {
            assert(!begins(s.skip(i), p));
        },
    }
}

/// No position holds the pattern when `find` gives none.
pub proof fn lemma_find_none<T>(s: Seq<T>, p: Seq<T>)
    requires
        forall|j: int| 0 <= j <= s.len() ==> !begins(#[trigger] s.skip(j), p),
    ensures
        find(s, p) is None,
{
    lemma_find(s, p);
    if find(s, p) is Some {
        let i = find(s, p)->0;
        assert(s.skip(i).take(p.len() as int) =~= s.subrange(i, i + p.len()));
        assert(begins(s.skip(i), p));
    }
}

/// Whether the characters from `at` on begin with `p`.
pub fn begins_at(chars: &[char], at: usize, p: &[char]) -> (r: bool)
    requires
        at <= chars@.len(),
    ensures
        r == begins(chars@.skip(at as int), p@),
{
    let n = chars.len();
    if n - at < p.len() {
        return false;
    }
    let ghost t = chars@.skip(at as int).take(p@.len() as int);
    let mut j: usize = 0;
    while j < p.len()
        invariant
            j <= p@.len(),
            n == chars@.len(),
            at + p@.len() <= n,
            t == chars@.skip(at as int).take(p@.len() as int),
            forall|q: int| 0 <= q < j ==> t[q] == p@[q],
        decreases p@.len() - j,
    {
        if chars[at + j] != p[j] {
            assert(t[j as int] != p@[j as int]);
            return false;
        }
        j += 1;
    }
    assert(t =~= p@);
    true
}

/// Where `p` first stands at or after `from`.
pub fn find_from(chars: &[char], from: usize, p: &[char]) -> (r: Option<usize>)
    requires
        from <= chars@.len(),
    ensures
        match r {
            Some(i) => {
                &&& from <= i
                &&& i + p@.len() <= chars@.len()
                &&& find(chars@.skip(from as int), p@) == Some(i - from)
            },
            None => find(chars@.skip(from as int), p@) is None,
        },
{
    let mut i: usize = from;
    let ghost t = chars@.skip(from as int);
    loop
        invariant
            from <= i <= chars@.len(),
            t == chars@.skip(from as int),
            forall|j: int| 0 <= j < i - from ==> !begins(#[trigger] t.skip(j), p@),
        decreases chars@.len() - i,
    {
        assert(t.skip(i - from) =~= chars@.skip(i as int));
        if begins_at(chars, i, p) {
            proof {
                lemma_find_is(t, p@, i - from);
            }
            return Some(i);
        }
        if i == chars.len() {
            proof {
                lemma_find_none(t, p@);
            }
            return None;
        }
        i += 1;
    }
}

/// Whether `s` begins with `p`.
pub fn starts_with(s: &str, p: &str) -> (r: bool)
    ensures
        r == begins(s@, p@),
{
    let chars = chars_of(s);
    let pat = chars_of(p);
    assert(s@.skip(0) =~= s@);
    begins_at(&chars, 0, &pat)
}

/// `s` without the character `c` at its end, if it stands there.
pub fn strip_last(s: &str, c: char) -> (r: Option<String>)
    ensures
        match r {
            Some(t) => s@.len() > 0 && s@.last() == c && t@ == s@.drop_last(),
            None => s@.len() == 0 || s@.last() != c,
        },
{
    let chars = chars_of(s);
    let n = chars.len();
    if n > 0 && chars[n - 1] == c {
        let t = substring(&chars, 0, n - 1);
        assert(t@ =~= s@.drop_last());
        Some(t)
    } else {
        None
    }
}

/// Whether `p` stands anywhere in `s`.
pub fn has(s: &str, p: &str) -> (r: bool)
    ensures
        r == contains(s@, p@),
{
    let chars = chars_of(s);
    let pat = chars_of(p);
    assert(s@.skip(0) =~= s@);
    find_from(&chars, 0, &pat).is_some()
}

/// Where `p` last stands in the characters.
pub fn rfind_in(chars: &[char], p: &[char]) -> (r: Option<usize>)
    ensures
        match r {
            Some(i) => i + p@.len() <= chars@.len() && rfind(chars@, p@) == Some(i as int),
            None => rfind(chars@, p@) is None,
        },
{
    let mut n: usize = chars.len();
    assert(chars@.take(n as int) =~= chars@);
    loop
        invariant
            n <= chars@.len(),
            rfind(chars@, p@) == rfind(chars@.take(n as int), p@),
        decreases n,
    {
        let ghost t = chars@.take(n as int);
        if p.len() <= n {
            let at = n - p.len();
            assert(chars@.skip(at as int).take(p@.len() as int) =~= t.skip(at as int));
            if begins_at(chars, at, p) {
                return Some(at);
            }
        }
        if n == 0 {
            return None;
        }
        assert(t.drop_last() =~= chars@.take(n - 1));
        n -= 1;
    }
}

/// `s` with every `from` replaced by `to`.
pub fn replaced(s: &str, from: &str, to: &str) -> (r: String)
    requires
        from@.len() > 0,
    ensures
        r@ == replace(s@, from@, to@),
{
    let chars = chars_of(s);
    let pat = chars_of(from);
    let n = chars.len();
    let mut out = String::new();
    let mut pos: usize = 0;
    assert(s@.skip(0) =~= s@);
    loop
        invariant
            chars@ == s@,
            pat@ == from@,
            from@.len() > 0,
            n == chars@.len(),
            pos <= n,
            replace(s@, from@, to@) =~= out@ + replace(s@.skip(pos as int), from@, to@),
        decreases chars@.len() - pos,
    {
        let ghost rest = s@.skip(pos as int);
        match find_from(&chars, pos, &pat) {
            Some(i) => {
                let piece = substring(&chars, pos, i);
                assert(piece@ =~= rest.take(i - pos));
                out.append(piece.as_str());
                out.append(to);
                assert(rest.skip(i - pos + from@.len()) =~= s@.skip(i + from@.len()));
                pos = i + pat.len();
            },
            None => {
                let piece = substring(&chars, pos, n);
                assert(piece@ =~= rest);
                out.append(piece.as_str());
                return out;
            },
        }
    }
}

/// The pieces of `s` between the occurrences of `sep`.
pub fn split_at_each(s: &str, sep: &str) -> (r: Vec<String>)
    requires
        sep@.len() > 0,
    ensures
        chars::texts(r@) == split_at_all(s@, sep@),
{
    let chars = chars_of(s);
    let pat = chars_of(sep);
    let n = chars.len();
    let mut out: Vec<String> = Vec::new();
    let mut pos: usize = 0;
    assert(s@.skip(0) =~= s@);
    assert(chars::texts(out@) =~= Seq::<Seq<char>>::empty());
    loop
        invariant
            chars@ == s@,
            pat@ == sep@,
            sep@.len() > 0,
            n == chars@.len(),
            pos <= n,
            split_at_all(s@, sep@) =~= chars::texts(out@) + split_at_all(s@.skip(pos as int), sep@),
        decreases chars@.len() - pos,
    {
        let ghost rest = s@.skip(pos as int);
        let ghost before = out@;
        match find_from(&chars, pos, &pat) {
            Some(i) => {
                let piece = substring(&chars, pos, i);
                assert(piece@ =~= rest.take(i - pos));
                out.push(piece);
                assert(chars::texts(out@) =~= chars::texts(before).push(piece@));
                assert(rest.skip(i - pos + sep@.len()) =~= s@.skip(i + sep@.len()));
                pos = i + pat.len();
            },
            None => {
                let piece = substring(&chars, pos, n);
                assert(piece@ =~= rest);
                out.push(piece);
                assert(chars::texts(out@) =~= chars::texts(before).push(piece@));
                return out;
            },
        }
    }
}

/// The pieces one after the other, with `sep` between each two.
pub fn join(pieces: &Vec<String>, sep: &str) -> (r: String)
    ensures
        r@ == joined(chars::texts(pieces@), sep@),
{
    let ghost all = chars::texts(pieces@);
    let mut out = String::new();
    if pieces.len() == 0 {
        return out;
    }
    out.append(pieces[0].as_str());
    let mut i: usize = 1;
    assert(all.skip(0) =~= all);
    while i < pieces.len()
        invariant
            all == chars::texts(pieces@),
            1 <= i <= pieces@.len(),
            joined(all, sep@) =~= out@ + if i < all.len() {
                sep@ + joined(all.skip(i as int), sep@)
            } else {
                Seq::<char>::empty()
            },
        decreases pieces@.len() - i,
    {
        assert(all.skip(i as int).skip(1) =~= all.skip(i + 1));
        out.append(sep);
        out.append(pieces[i].as_str());
        i += 1;
    }
    out
}

} // verus!

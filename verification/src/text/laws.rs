//! What splitting and joining undo of each other.
use crate::text::class;
use crate::text::class::CharClass;
use crate::text::search;
use vstd::prelude::*;

verus! {

/// Whether `c` does not occur in `s`.
pub open spec fn lacks(s: Seq<char>, c: char) -> bool {
    forall|i: int| 0 <= i < s.len() ==> #[trigger] s[i] != c
}

/// Whether a text stays one line when it is written with a line feed behind it.
pub open spec fn is_line(s: Seq<char>) -> bool {
    lacks(s, '\n') && !(s.len() > 0 && s.last() == '\r')
}

/// What two texts lack, the one behind the other lacks.
pub proof fn lacks_sum(a: Seq<char>, b: Seq<char>, c: char)
    requires
        lacks(a, c),
        lacks(b, c),
    ensures
        lacks(a + b, c),
{
    let s = a + b;
    assert forall|i: int| 0 <= i < s.len() implies #[trigger] s[i] != c by {
        if i < a.len() {
            assert(s[i] == a[i]);
        } else {
            assert(s[i] == b[i - a.len()]);
        }
    }
}

/// Splitting at the first `c` parts a front without `c` from what stands behind it.
pub proof fn split_once_parts(a: Seq<char>, c: char, b: Seq<char>)
    requires
        lacks(a, c),
    ensures
        class::class_index(a + seq![c] + b, CharClass::Char(c)) == a.len(),
        class::split_once(a + seq![c] + b, CharClass::Char(c)) == Some((a, b)),
{
    let s = a + seq![c] + b;
    assert forall|j: int| 0 <= j < a.len() implies !CharClass::Char(c).has(#[trigger] s[j]) by {
        assert(s[j] == a[j]);
    }
    class::lemma_class_index_is(s, CharClass::Char(c), a.len() as int);
    assert(s.take(a.len() as int) =~= a);
    assert(s.skip(a.len() as int + 1) =~= b);
}

/// A text without `c` is one piece.
pub proof fn split_whole(s: Seq<char>, c: char)
    requires
        lacks(s, c),
    ensures
        class::class_index(s, CharClass::Char(c)) == s.len(),
        class::split(s, CharClass::Char(c)) == seq![s],
        class::split_once(s, CharClass::Char(c)) is None,
{
    class::lemma_class_index_is(s, CharClass::Char(c), s.len() as int);
}

/// Splitting at a separator gives back the pieces that were joined with it, if it occurs in none
/// of them.
pub proof fn split_undoes_join(pieces: Seq<Seq<char>>, c: char)
    requires
        pieces.len() > 0,
        forall|i: int| 0 <= i < pieces.len() ==> lacks(#[trigger] pieces[i], c),
    ensures
        class::split(search::joined(pieces, seq![c]), CharClass::Char(c)) == pieces,
    decreases pieces.len(),
{
    let k = CharClass::Char(c);
    if pieces.len() == 1 {
        split_whole(pieces[0], c);
        assert(pieces =~= seq![pieces[0]]);
    } else {
        let rest = pieces.skip(1);
        assert forall|i: int| 0 <= i < rest.len() implies lacks(#[trigger] rest[i], c) by {
            assert(rest[i] == pieces[i + 1]);
        }
        split_undoes_join(rest, c);
        let tail = search::joined(rest, seq![c]);
        split_once_parts(pieces[0], c, tail);
        let s = pieces[0] + seq![c] + tail;
        assert(s.take(pieces[0].len() as int) =~= pieces[0]);
        assert(s.skip(pieces[0].len() as int + 1) =~= tail);
        assert(class::split(s, k) =~= pieces);
    }
}

/// The pieces of two texts with the separator between them are the pieces of the one and then
/// those of the other.
pub proof fn split_appended(a: Seq<char>, c: char, b: Seq<char>)
    ensures
        class::split(a + seq![c] + b, CharClass::Char(c)) == class::split(a, CharClass::Char(c))
            + class::split(b, CharClass::Char(c)),
    decreases a.len(),
{
    let k = CharClass::Char(c);
    let i = class::class_index(a, k);
    class::lemma_class_index(a, k);
    let s = a + seq![c] + b;
    if i < a.len() {
        let front = a.take(i);
        let rest = a.skip(i + 1);
        assert(lacks(front, c)) by {
            assert forall|j: int| 0 <= j < front.len() implies #[trigger] front[j] != c by {
                assert(!k.has(a[j]));
            }
        }
        split_appended(rest, c, b);
        let tail = rest + seq![c] + b;
        assert(s =~= front + seq![c] + tail);
        split_once_parts(front, c, tail);
        assert(s.take(i) =~= front);
        assert(s.skip(i + 1) =~= tail);
        assert(class::split(s, k) =~= class::split(a, k) + class::split(b, k));
    } else {
        assert(lacks(a, c)) by {
            assert forall|j: int| 0 <= j < a.len() implies #[trigger] a[j] != c by {
                assert(!k.has(a[j]));
            }
        }
        split_once_parts(a, c, b);
        assert(s.take(a.len() as int) =~= a);
        assert(s.skip(a.len() as int + 1) =~= b);
    }
}

/// Another line behind lines that have ended.
pub proof fn lines_take_another(a: Seq<char>, l: Seq<char>)
    requires
        a.len() > 0 ==> a.last() == '\n',
        is_line(l),
    ensures
        class::lines(a + l + seq!['\n']) == class::lines(a).push(l),
    decreases a.len(),
{
    let k = CharClass::Char('\n');
    let s = a + l + seq!['\n'];
    if a.len() == 0 {
        assert(s =~= l + seq!['\n'] + Seq::<char>::empty());
        split_once_parts(l, '\n', Seq::<char>::empty());
        assert(s.take(l.len() as int) =~= l);
        assert(s.skip(l.len() as int + 1) =~= Seq::<char>::empty());
        assert(class::lines(s) =~= seq![l] + class::lines(Seq::<char>::empty()));
        assert(class::lines(s) =~= class::lines(a).push(l));
    } else {
        let i = class::class_index(a, k);
        class::lemma_class_index(a, k);
        if i == a.len() {
            assert(!k.has(a[a.len() - 1]));
        }
        assert forall|j: int| 0 <= j < i implies !k.has(#[trigger] s[j]) by {
            assert(s[j] == a[j]);
        }
        class::lemma_class_index_is(s, k, i);
        let rest = a.skip(i + 1);
        lines_take_another(rest, l);
        assert(s.take(i) =~= a.take(i));
        assert(s.skip(i + 1) =~= rest + l + seq!['\n']);
        assert(class::lines(s) =~= class::lines(a).push(l));
    }
}

/// Joining the pieces of a text with the separator that it was split at gives it back.
pub proof fn join_undoes_split(s: Seq<char>, c: char)
    ensures
        search::joined(class::split(s, CharClass::Char(c)), seq![c]) == s,
        class::split(s, CharClass::Char(c)).len() > 0,
        forall|i: int|
            0 <= i < class::split(s, CharClass::Char(c)).len() ==> lacks(
                #[trigger] class::split(s, CharClass::Char(c))[i],
                c,
            ),
    decreases s.len(),
{
    let k = CharClass::Char(c);
    let pieces = class::split(s, k);
    let i = class::class_index(s, k);
    class::lemma_class_index(s, k);
    if i < s.len() {
        let rest = s.skip(i + 1);
        join_undoes_split(rest, c);
        assert(pieces.skip(1) =~= class::split(rest, k));
        assert(search::joined(pieces, seq![c]) =~= s);
        assert forall|j: int| 0 <= j < pieces.len() implies lacks(#[trigger] pieces[j], c) by {
            if j > 0 {
                assert(pieces[j] == class::split(rest, k)[j - 1]);
            } else {
                assert forall|q: int| 0 <= q < pieces[0].len() implies #[trigger] pieces[0][q]
                    != c by {
                    assert(!k.has(s[q]));
                }
            }
        }
    } else {
        assert forall|q: int| 0 <= q < s.len() implies #[trigger] s[q] != c by {
            assert(!k.has(s[q]));
        }
    }
}

/// Trimming keeps a character that does not belong to the class, and so all that lies between
/// such characters.
pub proof fn lemma_trim_keeps(s: Seq<char>, k: CharClass, at: int)
    requires
        0 <= at < s.len(),
        !k.has(s[at]),
    ensures
        class::trim(s, k).len() > 0,
{
    lemma_trim_start_keeps(s, k, at);
    let t = class::trim_start(s, k);
    let b = choose|b: int| 0 <= b < t.len() && !k.has(#[trigger] t[b]);
    lemma_trim_end_keeps(t, k, b);
}

/// Trimming leaves a text alone whose first character is outside the class and whose end is the
/// end of a text that trimming leaves alone.
pub proof fn lemma_trim_untouched(s: Seq<char>, tail: Seq<char>, k: CharClass)
    requires
        0 < s.len(),
        tail.len() <= s.len(),
        s.skip(s.len() - tail.len()) == tail,
        !k.has(s[0]),
        class::trim(tail, k) == tail,
        tail.len() == 0 ==> !k.has(s.last()),
    ensures
        class::trim(s, k) == s,
{
    if tail.len() > 0 {
        lemma_trim_is_clean(tail, k);
        assert(tail.last() == s.last());
    }
}

/// A text that trimming leaves alone has nothing of the class at its ends, and the other way
/// round.
pub proof fn lemma_trim_is_clean(s: Seq<char>, k: CharClass)
    ensures
        class::trim(s, k) == s <==> (s.len() > 0 ==> !k.has(s[0]) && !k.has(s.last())),
{
    lemma_trim_shrinks(s, k);
    if s.len() > 0 && k.has(s[0]) {
        lemma_trim_shrinks(s.skip(1), k);
    } else if s.len() > 0 && k.has(s.last()) {
        lemma_trim_end_shrinks(s.drop_last(), k);
    }
}

proof fn lemma_trim_end_shrinks(s: Seq<char>, k: CharClass)
    ensures
        class::trim_end(s, k).len() <= s.len(),
    decreases s.len(),
{
    if s.len() > 0 && k.has(s.last()) {
        lemma_trim_end_shrinks(s.drop_last(), k);
    }
}

proof fn lemma_trim_shrinks(s: Seq<char>, k: CharClass)
    ensures
        class::trim(s, k).len() <= s.len(),
        class::trim_start(s, k).len() <= s.len(),
    decreases s.len(),
{
    lemma_trim_end_shrinks(class::trim_start(s, k), k);
    if s.len() > 0 && k.has(s[0]) {
        lemma_trim_shrinks(s.skip(1), k);
    }
}

proof fn lemma_trim_start_keeps(s: Seq<char>, k: CharClass, at: int)
    requires
        0 <= at < s.len(),
        !k.has(s[at]),
    ensures
        exists|b: int|
            0 <= b < class::trim_start(s, k).len() && !k.has(
                #[trigger] class::trim_start(s, k)[b],
            ),
    decreases s.len(),
{
    if k.has(s[0]) {
        assert(s.skip(1)[at - 1] == s[at]);
        lemma_trim_start_keeps(s.skip(1), k, at - 1);
        assert(class::trim_start(s, k) == class::trim_start(s.skip(1), k));
    } else {
        assert(!k.has(class::trim_start(s, k)[at]));
    }
}

proof fn lemma_trim_end_keeps(s: Seq<char>, k: CharClass, at: int)
    requires
        0 <= at < s.len(),
        !k.has(s[at]),
    ensures
        class::trim_end(s, k).len() > 0,
    decreases s.len(),
{
    if k.has(s.last()) {
        assert(s.drop_last()[at] == s[at]);
        lemma_trim_end_keeps(s.drop_last(), k, at);
    }
}

} // verus!

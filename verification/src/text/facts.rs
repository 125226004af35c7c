//! What the operations on text come to, told by positions and characters.
use crate::text::class;
use crate::text::class::CharClass;
use crate::text::laws;
use crate::text::number;
use crate::text::search;
use vstd::prelude::*;

verus! {

/// Whether `p` stands somewhere in `s`.
pub open spec fn occurs<T>(s: Seq<T>, p: Seq<T>) -> bool {
    exists|i: int| 0 <= i && i + p.len() <= s.len() && #[trigger] s.subrange(i, i + p.len()) == p
}

/// Containing is standing at some position.
pub proof fn containing_is_occurring<T>(s: Seq<T>, p: Seq<T>)
    ensures
        search::contains(s, p) <==> occurs(s, p),
{
    search::lemma_find(s, p);
    if occurs(s, p) && search::find(s, p) is None {
        let i = choose|i: int|
            0 <= i && i + p.len() <= s.len() && #[trigger] s.subrange(i, i + p.len()) == p;
        assert(s.skip(i).take(p.len() as int) =~= s.subrange(i, i + p.len()));
        assert(!search::begins(s.skip(i), p));
    }
}

/// A text begins with its fronts and with nothing else.
pub proof fn beginning_is_a_front<T>(s: Seq<T>, p: Seq<T>)
    ensures
        search::begins(s, p) <==> exists|rest: Seq<T>| s == #[trigger] (p + rest),
{
    if search::begins(s, p) {
        assert(s =~= p + s.skip(p.len() as int));
    }
    if exists|rest: Seq<T>| s == #[trigger] (p + rest) {
        let rest = choose|rest: Seq<T>| s == #[trigger] (p + rest);
        assert(s.take(p.len() as int) =~= p);
    }
}

/// Whether a character is white space: a tab, a line end, a blank or one of the Unicode spaces.
pub open spec fn is_white(c: char) -> bool {
    let n = c as u32;
    9 <= n <= 13 || n == 32 || n == 133 || n == 160 || n == 5760 || 8192 <= n <= 8202 || n == 8232
        || n == 8233 || n == 8239 || n == 8287 || n == 12288
}

/// Whether a text is nothing but white space.
pub open spec fn all_white(s: Seq<char>) -> bool {
    forall|i: int| 0 <= i < s.len() ==> is_white(#[trigger] s[i])
}

/// Whether a text has no white space in it.
pub open spec fn no_white(s: Seq<char>) -> bool {
    forall|i: int| 0 <= i < s.len() ==> !is_white(#[trigger] s[i])
}

/// Whether a text has no white space at its ends.
pub open spec fn clean_ends(s: Seq<char>) -> bool {
    s.len() > 0 ==> !is_white(s[0]) && !is_white(s[s.len() - 1])
}

/// The class of white space holds white space.
pub proof fn space_is_white(c: char)
    ensures
        CharClass::Space.has(c) <==> is_white(c),
{
}

proof fn lemma_white()
    ensures
        forall|c: char|
            #![trigger CharClass::Space.has(c)]
            #![trigger is_white(c)]
            CharClass::Space.has(c) == is_white(c),
{
    assert forall|c: char|
        #![trigger CharClass::Space.has(c)]
        #![trigger is_white(c)]
        CharClass::Space.has(c) == is_white(c) by {
        space_is_white(c);
    }
}

/// Trimming takes the white space off both ends, and nothing else.
pub proof fn trimming_takes_white_space_off(a: Seq<char>, t: Seq<char>, b: Seq<char>)
    requires
        all_white(a),
        all_white(b),
        clean_ends(t),
    ensures
        class::trimmed(a + t + b) == t,
    decreases a.len() + b.len(),
{
    lemma_white();
    let k = CharClass::Space;
    let s = a + t + b;
    if a.len() > 0 {
        assert(is_white(a[0]));
        assert(s[0] == a[0]);
        assert(s.skip(1) =~= a.skip(1) + t + b);
        assert forall|i: int| 0 <= i < a.skip(1).len() implies is_white(#[trigger] a.skip(1)[i]) by {
            assert(is_white(a[i + 1]));
        }
        trimming_takes_white_space_off(a.skip(1), t, b);
    } else if t.len() > 0 {
        assert(s[0] == t[0]);
        assert(class::trim_start(s, k) == s);
        lemma_trim_end(t, b);
        assert(s =~= t + b);
    } else {
        assert(s =~= b);
        assert(t =~= Seq::<char>::empty());
        lemma_trim_white(b);
    }
}

proof fn lemma_trim_end(t: Seq<char>, b: Seq<char>)
    requires
        t.len() > 0,
        !is_white(t[t.len() - 1]),
        all_white(b),
    ensures
        class::trim_end(t + b, CharClass::Space) == t,
    decreases b.len(),
{
    lemma_white();
    let s = t + b;
    if b.len() > 0 {
        assert(is_white(b[b.len() - 1]));
        assert(s.last() == b[b.len() - 1]);
        assert(s.drop_last() =~= t + b.drop_last());
        assert forall|i: int| 0 <= i < b.drop_last().len() implies is_white(
            #[trigger] b.drop_last()[i],
        ) by {
            assert(is_white(b[i]));
        }
        lemma_trim_end(t, b.drop_last());
    } else {
        assert(s =~= t);
    }
}

proof fn lemma_trim_white(b: Seq<char>)
    requires
        all_white(b),
    ensures
        class::trim_start(b, CharClass::Space).len() == 0,
        class::trimmed(b) == Seq::<char>::empty(),
    decreases b.len(),
{
    lemma_white();
    if b.len() > 0 {
        assert(is_white(b[0]));
        assert forall|i: int| 0 <= i < b.skip(1).len() implies is_white(#[trigger] b.skip(1)[i]) by {
            assert(is_white(b[i + 1]));
        }
        lemma_trim_white(b.skip(1));
    }
    assert(class::trimmed(b) =~= Seq::<char>::empty());
}

/// Every text is white space, what trimming leaves of it, and white space again; what is left has
/// clean ends.
pub proof fn trimming_leaves_clean_ends(s: Seq<char>)
    ensures
        clean_ends(class::trimmed(s)),
        exists|a: Seq<char>, b: Seq<char>|
            all_white(a) && all_white(b) && s == #[trigger] (a + class::trimmed(s) + b),
{
    lemma_white();
    let k = CharClass::Space;
    let u = class::trim_start(s, k);
    lemma_trim_start_parts(s);
    let a = choose|a: Seq<char>| all_white(a) && s == #[trigger] (a + u);
    lemma_trim_end_parts(u);
    let t = class::trim_end(u, k);
    let b = choose|b: Seq<char>| all_white(b) && u == #[trigger] (t + b);
    assert(s =~= a + t + b);
    if t.len() > 0 {
        assert(t[0] == u[0]);
    }
}

proof fn lemma_trim_start_parts(s: Seq<char>)
    ensures
        ({
            let u = class::trim_start(s, CharClass::Space);
            &&& u.len() > 0 ==> !is_white(u[0])
            &&& exists|a: Seq<char>| all_white(a) && s == #[trigger] (a + u)
        }),
    decreases s.len(),
{
    lemma_white();
    let u = class::trim_start(s, CharClass::Space);
    if s.len() > 0 && CharClass::Space.has(s[0]) {
        lemma_trim_start_parts(s.skip(1));
        let a = choose|a: Seq<char>| all_white(a) && s.skip(1) == #[trigger] (a + u);
        let whole = seq![s[0]] + a;
        assert forall|i: int| 0 <= i < whole.len() implies is_white(#[trigger] whole[i]) by {
            if i > 0 {
                assert(is_white(a[i - 1]));
            }
        }
        assert(s =~= seq![s[0]] + s.skip(1));
        assert(s =~= whole + u);
    } else {
        assert(s =~= Seq::<char>::empty() + u);
    }
}

proof fn lemma_trim_end_parts(s: Seq<char>)
    ensures
        ({
            let t = class::trim_end(s, CharClass::Space);
            &&& t.len() > 0 ==> !is_white(t[t.len() - 1])
            &&& exists|b: Seq<char>| all_white(b) && s == #[trigger] (t + b)
        }),
    decreases s.len(),
{
    lemma_white();
    let t = class::trim_end(s, CharClass::Space);
    if s.len() > 0 && CharClass::Space.has(s.last()) {
        lemma_trim_end_parts(s.drop_last());
        let b = choose|b: Seq<char>| all_white(b) && s.drop_last() == #[trigger] (t + b);
        let whole = b.push(s.last());
        assert forall|i: int| 0 <= i < whole.len() implies is_white(#[trigger] whole[i]) by {
            if i < b.len() {
                assert(is_white(b[i]));
            }
        }
        assert(s =~= s.drop_last().push(s.last()));
        assert(s =~= t + whole);
    } else {
        assert(s =~= t + Seq::<char>::empty());
    }
}

/// Joining puts the separator between each two pieces and nowhere else.
pub proof fn joining_appends(pieces: Seq<Seq<char>>, last: Seq<char>, sep: Seq<char>)
    ensures
        search::joined(pieces.push(last), sep) == if pieces.len() == 0 {
            last
        } else {
            search::joined(pieces, sep) + sep + last
        },
    decreases pieces.len(),
{
    let all = pieces.push(last);
    if pieces.len() > 0 {
        assert(all.skip(1) =~= pieces.skip(1).push(last));
        joining_appends(pieces.skip(1), last, sep);
        if pieces.len() > 1 {
            assert(search::joined(all, sep) =~= search::joined(pieces, sep) + sep + last);
        } else {
            assert(pieces.skip(1).len() == 0);
            assert(search::joined(all, sep) =~= search::joined(pieces, sep) + sep + last);
        }
    }
}

/// A word without white space, with white space or the end of the text behind it, is the first of
/// the words; white space in front of the words does not count.
pub proof fn words_come_one_by_one(w: Seq<char>, c: char, rest: Seq<char>)
    requires
        no_white(w),
        is_white(c),
    ensures
        class::words(w + seq![c] + rest) == if w.len() > 0 {
            seq![w] + class::words(rest)
        } else {
            class::words(rest)
        },
        class::words(w) == if w.len() > 0 {
            seq![w]
        } else {
            Seq::<Seq<char>>::empty()
        },
{
    lemma_white();
    let k = CharClass::Space;
    let s = w + seq![c] + rest;
    assert forall|j: int| 0 <= j < w.len() implies !k.has(#[trigger] s[j]) by {
        assert(s[j] == w[j]);
        assert(!is_white(w[j]));
    }
    assert forall|j: int| 0 <= j < w.len() implies !k.has(#[trigger] w[j]) by {
        assert(!is_white(w[j]));
    }
    assert(s[w.len() as int] == c);
    class::lemma_class_index_is(s, k, w.len() as int);
    class::lemma_class_index_is(w, k, w.len() as int);
    assert(s.take(w.len() as int) =~= w);
    assert(s.skip(w.len() as int + 1) =~= rest);
    let pieces = class::split(s, k);
    assert(pieces =~= seq![w] + class::split(rest, k));
    assert(pieces.skip(1) =~= class::split(rest, k));
    assert(pieces[0] == w);
    assert(class::split(w, k) =~= seq![w]);
    assert(seq![w].skip(1) =~= Seq::<Seq<char>>::empty());
    reveal_with_fuel(class::non_empty, 2);
    if w.len() > 0 {
        assert(class::words(w) =~= seq![w]);
    } else {
        assert(class::words(w) =~= Seq::<Seq<char>>::empty());
    }
}

/// A word has no white space in it and is not empty.
pub proof fn words_have_no_white_space(s: Seq<char>)
    ensures
        forall|i: int|
            0 <= i < class::words(s).len() ==> no_white(#[trigger] class::words(s)[i])
                && class::words(s)[i].len() > 0,
    decreases s.len(),
{
    lemma_white();
    let k = CharClass::Space;
    let i = class::class_index(s, k);
    class::lemma_class_index(s, k);
    let w = s.take(i);
    assert forall|j: int| 0 <= j < w.len() implies !is_white(#[trigger] w[j]) by {
        assert(!k.has(s[j]));
    }
    let all = class::words(s);
    if i < s.len() {
        let rest = s.skip(i + 1);
        words_have_no_white_space(rest);
        assert(s =~= w + seq![s[i]] + rest);
        words_come_one_by_one(w, s[i], rest);
        assert forall|j: int| 0 <= j < all.len() implies no_white(#[trigger] all[j])
            && all[j].len() > 0 by {
            if w.len() > 0 && j > 0 {
                assert(all[j] == class::words(rest)[j - 1]);
            }
        }
    } else {
        assert(s =~= w);
        words_come_one_by_one(w, ' ', Seq::<char>::empty());
    }
}

/// A line ends at its line feed; a carriage return in front of that belongs to the line end. What
/// has no line feed behind it is a line too, unless it is empty.
pub proof fn lines_come_one_by_one(l: Seq<char>, rest: Seq<char>)
    requires
        laws::lacks(l, '\n'),
    ensures
        class::lines(l + seq!['\n'] + rest) == seq![
            if l.len() > 0 && l[l.len() - 1] == '\r' {
                l.take(l.len() - 1)
            } else {
                l
            },
        ] + class::lines(rest),
        class::lines(l) == if l.len() > 0 {
            seq![l]
        } else {
            Seq::<Seq<char>>::empty()
        },
{
    let s = l + seq!['\n'] + rest;
    laws::split_once_parts(l, '\n', rest);
    laws::split_whole(l, '\n');
    assert(s.take(l.len() as int) =~= l);
    assert(s.skip(l.len() as int + 1) =~= rest);
    if l.len() > 0 {
        assert(l.drop_last() =~= l.take(l.len() - 1));
    }
    assert(class::lines(s) =~= seq![class::strip_cr(l)] + class::lines(rest));
}

/// Decimal digits are positional: another digit behind a number multiplies it by ten and adds
/// what the digit stands for.
pub proof fn decimal_is_positional(n: nat, d: nat)
    requires
        d < 10,
    ensures
        n > 0 ==> number::decimal(10 * n + d) == number::decimal(n).push((48 + d) as char),
        number::decimal(d) == seq![(48 + d) as char],
{
    assert((10 * n + d) / 10 == n);
    assert((10 * n + d) % 10 == d);
}

/// A decimal number is read digit by digit from the left; anything else than a digit spoils it, and
/// one plus sign in front does not count.
pub proof fn decimal_is_read_by_position(s: Seq<char>, c: char)
    ensures
        number::decimal_digits_value(s.push(c)) == match number::decimal_digits_value(s) {
            Some(v) => if 48 <= c as u32 <= 57 {
                Some((10 * v + (c as u32 - 48)) as nat)
            } else {
                None
            },
            None => None,
        },
        number::decimal_digits_value(seq![]) == Some(0nat),
        s.len() > 0 ==> number::decimal_value(seq!['+'] + s) == number::decimal_digits_value(s),
        s.len() > 0 && s[0] != '+' ==> number::decimal_value(s) == number::decimal_digits_value(s),
        number::decimal_value(seq![]) is None,
        number::decimal_value(seq!['+']) is None,
{
    assert(s.push(c).drop_last() =~= s);
    assert((seq!['+'] + s).skip(1) =~= s);
    assert(seq!['+'].skip(1) =~= Seq::<char>::empty());
}

/// A hexadecimal number is read digit by digit from the left, in either case; anything else than a
/// digit spoils it.
pub proof fn hexadecimal_is_read_by_position(s: Seq<char>, c: char)
    ensures
        number::hex_digits_value(s.push(c)) == match number::hex_digits_value(s) {
            Some(v) => if 48 <= c as u32 <= 57 {
                Some((16 * v + (c as u32 - 48)) as nat)
            } else if 97 <= c as u32 <= 102 {
                Some((16 * v + (c as u32 - 87)) as nat)
            } else if 65 <= c as u32 <= 70 {
                Some((16 * v + (c as u32 - 55)) as nat)
            } else {
                None
            },
            None => None,
        },
        number::hex_digits_value(seq![]) == Some(0nat),
        s.len() > 0 && s[0] != '+' ==> number::hex_value(s) == number::hex_digits_value(s),
{
    assert(s.push(c).drop_last() =~= s);
}

/// Where a separator stands in a text, the last piece is what stands behind the last one.
pub proof fn last_piece_stands_behind_the_last_separator(s: Seq<char>, c: char)
    ensures
        ({
            let pieces = class::split(s, CharClass::Char(c));
            &&& laws::lacks(pieces.last(), c)
            &&& pieces.len() > 1 ==> exists|front: Seq<char>|
                s == #[trigger] (front + seq![c] + pieces.last())
            &&& pieces.len() == 1 ==> s == pieces.last()
        }),
    decreases s.len(),
{
    let k = CharClass::Char(c);
    class::lemma_class_index(s, k);
    let i = class::class_index(s, k);
    let pieces = class::split(s, k);
    laws::join_undoes_split(s, c);
    assert(laws::lacks(pieces[pieces.len() - 1], c));
    if i < s.len() {
        let rest = s.skip(i + 1);
        last_piece_stands_behind_the_last_separator(rest, c);
        laws::join_undoes_split(rest, c);
        let tail = class::split(rest, k);
        assert(pieces.last() == tail.last());
        if tail.len() > 1 {
            let front = choose|front: Seq<char>| rest == #[trigger] (front + seq![c] + tail.last());
            let whole = s.take(i + 1) + front;
            assert(s =~= s.take(i + 1) + rest);
            assert(s =~= whole + seq![c] + pieces.last());
        } else {
            assert(s =~= s.take(i) + seq![c] + rest);
            assert(s == s.take(i) + seq![c] + pieces.last());
        }
    }
}

/// A negative number is a minus sign and the digits of what it is below nought.
pub proof fn signed_numbers_have_their_sign(n: nat)
    ensures
        number::signed_decimal(n as int) == number::decimal(n),
        n > 0 ==> number::signed_decimal(-(n as int)) == seq!['-'] + number::decimal(n),
{
}

} // verus!

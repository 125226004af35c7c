//! Classes of characters, and what is trimmed or split by them.
use crate::text::chars;
use crate::text::chars::{chars_of, substring};
use vstd::prelude::*;

verus! {

/// A set of characters that text is trimmed or split by.
#[derive(Clone, Copy)]
pub enum CharClass {
    /// One character.
    Char(char),
    /// The characters with the Unicode property White_Space.
    Space,
    /// The punctuation that surrounds a URL in a log line: quotes, a comma, a closing bracket.
    UrlEdge,
}

impl CharClass {
    /// Whether `c` belongs to the class.
    pub open spec fn has(self, c: char) -> bool {
        match self {
            CharClass::Char(d) => c == d,
            CharClass::Space => {
                ||| '\u{9}' <= c <= '\u{d}'
                ||| c == ' '
                ||| c == '\u{85}'
                ||| c == '\u{a0}'
                ||| c == '\u{1680}'
                ||| '\u{2000}' <= c <= '\u{200a}'
                ||| c == '\u{2028}'
                ||| c == '\u{2029}'
                ||| c == '\u{202f}'
                ||| c == '\u{205f}'
                ||| c == '\u{3000}'
            },
            CharClass::UrlEdge => c == '"' || c == '\'' || c == ',' || c == ')',
        }
    }

    /// Whether `c` belongs to the class.
    pub fn test(&self, c: char) -> (r: bool)
        ensures
            r == self.has(c),
    {
        match self {
            CharClass::Char(d) => c == *d,
            CharClass::Space => ('\u{9}' <= c && c <= '\u{d}') || c == ' ' || c == '\u{85}' || c
                == '\u{a0}' || c == '\u{1680}' || ('\u{2000}' <= c && c <= '\u{200a}') || c
                == '\u{2028}' || c == '\u{2029}' || c == '\u{202f}' || c == '\u{205f}' || c
                == '\u{3000}',
            CharClass::UrlEdge => c == '"' || c == '\'' || c == ',' || c == ')',
        }
    }
}

/// The position of the first character of `s` in the class, or `s.len()` when there is none.
pub open spec fn class_index(s: Seq<char>, k: CharClass) -> int
    decreases s.len(),
{
    if s.len() == 0 || k.has(s[0]) {
        0
    } else {
        1 + class_index(s.skip(1), k)
    }
}

/// The pieces of `s` between the characters of the class; one more piece than such characters.
pub open spec fn split(s: Seq<char>, k: CharClass) -> Seq<Seq<char>>
    decreases s.len(),
{
    let i = class_index(s, k);
    if 0 <= i < s.len() {
        seq![s.take(i)] + split(s.skip(i + 1), k)
    } else {
        seq![s]
    }
}

/// What stands before and after the first character of the class, if there is one.
pub open spec fn split_once(s: Seq<char>, k: CharClass) -> Option<(Seq<char>, Seq<char>)> {
    let i = class_index(s, k);
    if i < s.len() {
        Some((s.take(i), s.skip(i + 1)))
    } else {
        None
    }
}

/// `s` without the characters of the class at its front.
pub open spec fn trim_start(s: Seq<char>, k: CharClass) -> Seq<char>
    decreases s.len(),
{
    if s.len() > 0 && k.has(s[0]) {
        trim_start(s.skip(1), k)
    } else {
        s
    }
}

/// `s` without the characters of the class at its end.
pub open spec fn trim_end(s: Seq<char>, k: CharClass) -> Seq<char>
    decreases s.len(),
{
    if s.len() > 0 && k.has(s.last()) {
        trim_end(s.drop_last(), k)
    } else {
        s
    }
}

/// `s` without the characters of the class at either end.
pub open spec fn trim(s: Seq<char>, k: CharClass) -> Seq<char> {
    trim_end(trim_start(s, k), k)
}

/// `s` without the white space at either end.
pub open spec fn trimmed(s: Seq<char>) -> Seq<char> {
    trim(s, CharClass::Space)
}

/// The pieces that are not empty, in order.
pub open spec fn non_empty(pieces: Seq<Seq<char>>) -> Seq<Seq<char>>
    decreases pieces.len(),
{
    if pieces.len() == 0 {
        seq![]
    } else if pieces[0].len() == 0 {
        non_empty(pieces.skip(1))
    } else {
        seq![pieces[0]] + non_empty(pieces.skip(1))
    }
}

/// The words of `s`: its longest runs without white space.
pub open spec fn words(s: Seq<char>) -> Seq<Seq<char>> {
    non_empty(split(s, CharClass::Space))
}

/// `s` without one carriage return at its end, if it has one there.
pub open spec fn strip_cr(s: Seq<char>) -> Seq<char> {
    if s.len() > 0 && s.last() == '\r' {
        s.drop_last()
    } else {
        s
    }
}

/// The lines of `s`. A line ends with a line feed or with a carriage return and a line feed;
/// the last one may also end with the text.
pub open spec fn lines(s: Seq<char>) -> Seq<Seq<char>>
    decreases s.len(),
{
    if s.len() == 0 {
        seq![]
    } else {
        let i = class_index(s, CharClass::Char('\n'));
        if 0 <= i < s.len() {
            seq![strip_cr(s.take(i))] + lines(s.skip(i + 1))
        } else {
            seq![s]
        }
    }
}

/// What `class_index` says of the characters around the position that it gives.
pub proof fn lemma_class_index(s: Seq<char>, k: CharClass)
    ensures
        0 <= class_index(s, k) <= s.len(),
        forall|j: int| 0 <= j < class_index(s, k) ==> !k.has(#[trigger] s[j]),
        class_index(s, k) < s.len() ==> k.has(s[class_index(s, k)]),
    decreases s.len(),
{
    if s.len() > 0 && !k.has(s[0]) {
        let t = s.skip(1);
        lemma_class_index(t, k);
        assert forall|j: int| 0 <= j < class_index(s, k) implies !k.has(#[trigger] s[j]) by {
            if j > 0 {
                assert(s[j] == t[j - 1]);
            }
        }
    }
}

/// A position with nothing of the class before it is the first one if it ends the text or is
/// itself in the class.
pub proof fn lemma_class_index_is(s: Seq<char>, k: CharClass, i: int)
    requires
        0 <= i <= s.len(),
        forall|j: int| 0 <= j < i ==> !k.has(#[trigger] s[j]),
        i < s.len() ==> k.has(s[i]),
    ensures
        class_index(s, k) == i,
{
    lemma_class_index(s, k);
    let r = class_index(s, k);
    if r < i {
        assert(!k.has(s[r]));
    }
    if i < r {
        assert(!k.has(s[i]));
    }
}

/// The position of the first character in the class at or after `from`, or the length.
pub fn find_class(chars: &[char], from: usize, k: CharClass) -> (r: usize)
    requires
        from <= chars@.len(),
    ensures
        from <= r <= chars@.len(),
        r == from + class_index(chars@.skip(from as int), k),
{
    let mut i: usize = from;
    while i < chars.len() && !k.test(chars[i])
        invariant
            from <= i <= chars@.len(),
            forall|j: int| from <= j < i ==> !k.has(#[trigger] chars@[j]),
        decreases chars@.len() - i,
    {
        i += 1;
    }
    proof {
        let t = chars@.skip(from as int);
        assert forall|j: int| 0 <= j < i - from implies !k.has(#[trigger] t[j]) by {
            assert(t[j] == chars@[from + j]);
        }
        lemma_class_index_is(t, k, i - from);
    }
    i
}

/// The pieces of `s` between the characters of the class.
pub fn split_by(s: &str, k: CharClass) -> (r: Vec<String>)
    ensures
        chars::texts(r@) == split(s@, k),
{
    let chars = chars_of(s);
    let mut out: Vec<String> = Vec::new();
    let mut pos: usize = 0;
    assert(s@.skip(0) =~= s@);
    assert(chars::texts(out@) =~= Seq::<Seq<char>>::empty());
    loop
        invariant
            chars@ == s@,
            pos <= chars@.len(),
            split(s@, k) =~= chars::texts(out@) + split(s@.skip(pos as int), k),
        decreases chars@.len() - pos,
    {
        let i = find_class(&chars, pos, k);
        let ghost rest = s@.skip(pos as int);
        let ghost before = out@;
        let piece = substring(&chars, pos, i);
        assert(piece@ =~= rest.take(i - pos));
        out.push(piece);
        assert(chars::texts(out@) =~= chars::texts(before).push(piece@));
        if i == chars.len() {
            assert(rest.take(i - pos) =~= rest);
            return out;
        }
        assert(rest.skip(i - pos + 1) =~= s@.skip(i + 1));
        pos = i + 1;
    }
}

/// What stands before and after the first character of the class, if there is one.
pub fn split_once_by(s: &str, k: CharClass) -> (r: Option<(String, String)>)
    ensures
        match r {
            Some((a, b)) => split_once(s@, k) == Some((a@, b@)),
            None => split_once(s@, k) is None,
        },
{
    let chars = chars_of(s);
    assert(s@.skip(0) =~= s@);
    let i = find_class(&chars, 0, k);
    if i < chars.len() {
        let a = substring(&chars, 0, i);
        let b = substring(&chars, i + 1, chars.len());
        assert(a@ =~= s@.take(i as int));
        assert(b@ =~= s@.skip(i + 1));
        Some((a, b))
    } else {
        None
    }
}

/// `s` without the characters of the class at either end.
pub fn trim_by(s: &str, k: CharClass) -> (r: String)
    ensures
        r@ == trim(s@, k),
{
    let chars = chars_of(s);
    let mut start: usize = 0;
    assert(s@.skip(0) =~= s@);
    while start < chars.len() && k.test(chars[start])
        invariant
            chars@ == s@,
            start <= chars@.len(),
            trim_start(s@, k) == trim_start(s@.skip(start as int), k),
        decreases chars@.len() - start,
    {
        assert(s@.skip(start as int).skip(1) =~= s@.skip(start + 1));
        start += 1;
    }
    let end = end_of_trim(&chars, start, k);
    let r = substring(&chars, start, end);
    assert(s@.skip(start as int) =~= s@.subrange(start as int, s@.len() as int));
    r
}

/// `s` without the characters of the class at its end.
pub fn trim_end_by(s: &str, k: CharClass) -> (r: String)
    ensures
        r@ == trim_end(s@, k),
{
    let chars = chars_of(s);
    let end = end_of_trim(&chars, 0, k);
    assert(s@.subrange(0, s@.len() as int) =~= s@);
    substring(&chars, 0, end)
}

/// Where the text from `start` on ends once the class is trimmed off its end.
fn end_of_trim(chars: &[char], start: usize, k: CharClass) -> (end: usize)
    requires
        start <= chars@.len(),
    ensures
        start <= end <= chars@.len(),
        chars@.subrange(start as int, end as int) == trim_end(
            chars@.subrange(start as int, chars@.len() as int),
            k,
        ),
{
    let mut end: usize = chars.len();
    while end > start && k.test(chars[end - 1])
        invariant
            start <= end <= chars@.len(),
            trim_end(chars@.subrange(start as int, end as int), k) == trim_end(
                chars@.subrange(start as int, chars@.len() as int),
                k,
            ),
        decreases end,
    {
        assert(chars@.subrange(start as int, end as int).drop_last() =~= chars@.subrange(
            start as int,
            end - 1,
        ));
        end -= 1;
    }
    end
}

/// `s` without the white space at either end.
pub fn trim_space(s: &str) -> (r: String)
    ensures
        r@ == trimmed(s@),
{
    trim_by(s, CharClass::Space)
}

/// The pieces that are not empty, in order.
pub fn drop_empty(pieces: Vec<String>) -> (r: Vec<String>)
    ensures
        chars::texts(r@) == non_empty(chars::texts(pieces@)),
{
    let mut out: Vec<String> = Vec::new();
    let mut i: usize = 0;
    let ghost all = chars::texts(pieces@);
    assert(all.skip(0) =~= all);
    assert(chars::texts(out@) =~= Seq::<Seq<char>>::empty());
    while i < pieces.len()
        invariant
            all == chars::texts(pieces@),
            i <= pieces@.len(),
            non_empty(all) =~= chars::texts(out@) + non_empty(all.skip(i as int)),
        decreases pieces@.len() - i,
    {
        let ghost before = out@;
        assert(all.skip(i as int).skip(1) =~= all.skip(i + 1));
        assert(all.skip(i as int)[0] == pieces@[i as int]@);
        if !pieces[i].as_str().is_empty() {
            let piece = pieces[i].clone();
            out.push(piece);
            assert(chars::texts(out@) =~= chars::texts(before).push(pieces@[i as int]@));
        }
        i += 1;
    }
    out
}

/// The words of `s`.
pub fn words_of(s: &str) -> (r: Vec<String>)
    ensures
        chars::texts(r@) == words(s@),
{
    drop_empty(split_by(s, CharClass::Space))
}

/// The lines of `s`.
pub fn lines_of(s: &str) -> (r: Vec<String>)
    ensures
        chars::texts(r@) == lines(s@),
{
    let chars = chars_of(s);
    let mut out: Vec<String> = Vec::new();
    let mut pos: usize = 0;
    assert(s@.skip(0) =~= s@);
    assert(chars::texts(out@) =~= Seq::<Seq<char>>::empty());
    while pos < chars.len()
        invariant
            chars@ == s@,
            pos <= chars@.len(),
            lines(s@) =~= chars::texts(out@) + lines(s@.skip(pos as int)),
        decreases chars@.len() - pos,
    {
        let i = find_class(&chars, pos, CharClass::Char('\n'));
        let ghost rest = s@.skip(pos as int);
        let ghost before = out@;
        if i == chars.len() {
            let piece = substring(&chars, pos, i);
            assert(piece@ =~= rest);
            out.push(piece);
            assert(chars::texts(out@) =~= chars::texts(before).push(piece@));
            return out;
        }
        let end = if i > pos && chars[i - 1] == '\r' {
            i - 1
        } else {
            i
        };
        let piece = substring(&chars, pos, end);
        assert(piece@ =~= strip_cr(rest.take(i - pos)));
        out.push(piece);
        assert(chars::texts(out@) =~= chars::texts(before).push(piece@));
        assert(rest.skip(i - pos + 1) =~= s@.skip(i + 1));
        pos = i + 1;
    }
    out
}

} // verus!

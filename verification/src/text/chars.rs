use vstd::prelude::*;
use vstd::utf8;

verus! {

/// `String::push` appends one character to the end of the string.
pub assume_specification[ String::push ](s: &mut String, c: char)
    ensures
        final(s)@ == old(s)@.push(c),
;

/// The characters of `s`, one per element.
pub fn chars_of(s: &str) -> (r: Vec<char>)
    ensures
        r@ == s@,
{
    let mut out: Vec<char> = Vec::new();
    for c in it: s.chars()
        invariant
            out@ == it.seq().take(it.index() as int),
            it.seq() == s@,
    {
        out.push(c);
    }
    assert(s@.take(s@.len() as int) == s@);
    out
}

/// The text that `chars` spells from `start` up to but not including `end`.
pub fn substring(chars: &[char], start: usize, end: usize) -> (r: String)
    requires
        start <= end <= chars@.len(),
    ensures
        r@ == chars@.subrange(start as int, end as int),
{
    let mut out = String::new();
    let mut i: usize = start;
    while i < end
        invariant
            start <= i <= end <= chars@.len(),
            out@ == chars@.subrange(start as int, i as int),
        decreases end - i,
    {
        out.push(chars[i]);
        i += 1;
    }
    out
}

/// Whether the two texts are equal.
pub fn same(a: &str, b: &str) -> (r: bool)
    ensures
        r == (a@ == b@),
{
    let x = chars_of(a);
    let y = chars_of(b);
    if x.len() != y.len() {
        return false;
    }
    let mut i: usize = 0;
    while i < x.len()
        invariant
            x@ == a@,
            y@ == b@,
            x@.len() == y@.len(),
            i <= x@.len(),
            forall|j: int| 0 <= j < i ==> x@[j] == y@[j],
        decreases x@.len() - i,
    {
        if x[i] != y[i] {
            return false;
        }
        i += 1;
    }
    assert(x@ =~= y@);
    true
}

/// The number of bytes that a text takes up in UTF-8.
pub open spec fn size(s: Seq<char>) -> nat {
    utf8::encode_utf8(s).len()
}

/// The number of bytes that `s` takes up.
pub fn size_of(s: &str) -> (r: usize)
    ensures
        r == size(s@),
{
    s.as_bytes().len()
}

/// The texts of a list of strings.
pub open spec fn texts(v: Seq<String>) -> Seq<Seq<char>> {
    v.map_values(|s: String| s@)
}

/// The text of an optional string.
pub open spec fn opt_text(o: Option<String>) -> Option<Seq<char>> {
    match o {
        Some(s) => Some(s@),
        None => None,
    }
}

/// The text of an optional borrowed string.
pub open spec fn opt_str(o: Option<&str>) -> Option<Seq<char>> {
    match o {
        Some(s) => Some(s@),
        None => None,
    }
}

/// A copy of an optional string.
pub fn copy_opt(o: &Option<String>) -> (r: Option<String>)
    ensures
        opt_text(r) == opt_text(*o),
{
    match o {
        Some(s) => Some(s.clone()),
        None => None,
    }
}

} // verus!

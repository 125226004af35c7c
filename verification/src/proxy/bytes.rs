//! Markers in streams of bytes.
use crate::text::search;
use vstd::prelude::*;

verus! {

/// A carriage return and a line feed.
pub open spec fn crlf() -> Seq<u8> {
    seq![13u8, 10u8]
}

/// The empty line that ends a head.
pub open spec fn blank_line() -> Seq<u8> {
    seq![13u8, 10u8, 13u8, 10u8]
}

/// Where the head that `b` begins with ends: behind the first empty line.
pub open spec fn header_end(b: Seq<u8>) -> Option<int> {
    match search::find(b, blank_line()) {
        Some(i) => Some(i + 4),
        None => None,
    }
}

/// Where the first marker stands at or after `from`.
fn find_marker(b: &[u8], from: usize, marker: &[u8]) -> (r: Option<usize>)
    requires
        from <= b@.len(),
        marker@.len() > 0,
    ensures
        match r {
            Some(i) => from <= i && i + marker@.len() <= b@.len() && search::find(
                b@.skip(from as int),
                marker@,
            ) == Some(i - from),
            None => search::find(b@.skip(from as int), marker@) is None,
        },
{
    let n = b.len();
    let mut i: usize = from;
    let ghost t = b@.skip(from as int);
    loop
        invariant
            n == b@.len(),
            from <= i <= n,
            t == b@.skip(from as int),
            marker@.len() > 0,
            forall|j: int| 0 <= j < i - from ==> !search::begins(#[trigger] t.skip(j), marker@),
        decreases n - i,
    {
        assert(t.skip(i - from) =~= b@.skip(i as int));
        if n - i < marker.len() {
            proof {
                assert forall|j: int| 0 <= j <= t.len() implies !search::begins(
                    #[trigger] t.skip(j),
                    marker@,
                ) by {}
                search::lemma_find_none(t, marker@);
            }
            return None;
        }
        if bytes_at(b, i, marker) {
            proof {
                search::lemma_find_is(t, marker@, i - from);
            }
            return Some(i);
        }
        i += 1;
    }
}

/// Whether the marker stands at `at`.
fn bytes_at(b: &[u8], at: usize, marker: &[u8]) -> (r: bool)
    requires
        at + marker@.len() <= b@.len(),
    ensures
        r == search::begins(b@.skip(at as int), marker@),
{
    let n = b.len();
    let ghost t = b@.skip(at as int).take(marker@.len() as int);
    let mut j: usize = 0;
    while j < marker.len()
        invariant
            n == b@.len(),
            j <= marker@.len(),
            at + marker@.len() <= n,
            t == b@.skip(at as int).take(marker@.len() as int),
            forall|q: int| 0 <= q < j ==> t[q] == marker@[q],
        decreases marker@.len() - j,
    {
        if b[at + j] != marker[j] {
            assert(t[j as int] != marker@[j as int]);
            return false;
        }
        j += 1;
    }
    assert(t =~= marker@);
    true
}

/// Where the head that `buffer` begins with ends.
pub fn find_header_end(buffer: &[u8]) -> (r: Option<usize>)
    ensures
        match r {
            Some(end) => end <= buffer@.len() && header_end(buffer@) == Some(end as int),
            None => header_end(buffer@) is None,
        },
{
    let n = buffer.len();
    let marker: [u8; 4] = [13u8, 10u8, 13u8, 10u8];
    assert(marker@ =~= blank_line());
    assert(buffer@.skip(0) =~= buffer@);
    match find_marker(buffer, 0, &marker) {
        Some(i) => {
            assert(i + 4 <= n);
            Some(i + 4)
        },
        None => None,
    }
}

/// Where the first line end stands.
pub fn find_crlf(buffer: &[u8]) -> (r: Option<usize>)
    ensures
        match r {
            Some(i) => i + 2 <= buffer@.len() && search::find(buffer@, crlf()) == Some(i as int),
            None => search::find(buffer@, crlf()) is None,
        },
{
    let marker: [u8; 2] = [13u8, 10u8];
    assert(marker@ =~= crlf());
    assert(buffer@.skip(0) =~= buffer@);
    find_marker(buffer, 0, &marker)
}

/// A marker that has been found stays the first one, whatever bytes follow.
pub proof fn lemma_marker_stays(b: Seq<u8>, more: Seq<u8>, marker: Seq<u8>)
    requires
        search::find(b, marker) is Some,
    ensures
        search::find(b + more, marker) == search::find(b, marker),
{
    search::lemma_find(b, marker);
    let i = search::find(b, marker)->0;
    let s = b + more;
    assert(s.skip(i).take(marker.len() as int) =~= b.subrange(i, i + marker.len()));
    assert forall|j: int| 0 <= j < i implies !search::begins(#[trigger] s.skip(j), marker) by {
        assert(s.skip(j).take(marker.len() as int) =~= b.skip(j).take(marker.len() as int));
        assert(!search::begins(b.skip(j), marker));
    }
    search::lemma_find_is(s, marker, i);
}

/// Copies of the bytes from `start` up to but not including `end`.
pub fn copy_bytes(b: &[u8], start: usize, end: usize) -> (r: Vec<u8>)
    requires
        start <= end <= b@.len(),
    ensures
        r@ == b@.subrange(start as int, end as int),
{
    let mut out: Vec<u8> = Vec::new();
    let mut i: usize = start;
    while i < end
        invariant
            start <= i <= end <= b@.len(),
            out@ == b@.subrange(start as int, i as int),
        decreases end - i,
    {
        out.push(b[i]);
        i += 1;
    }
    out
}

/// Appends bytes to a buffer.
pub fn append_bytes(out: &mut Vec<u8>, b: &[u8])
    ensures
        final(out)@ == old(out)@ + b@,
{
    let mut i: usize = 0;
    let ghost before = out@;
    while i < b.len()
        invariant
            i <= b@.len(),
            out@ == before + b@.take(i as int),
        decreases b@.len() - i,
    {
        out.push(b[i]);
        i += 1;
        assert(before + b@.take(i as int) =~= (before + b@.take(i - 1)).push(b@[i - 1]));
    }
    assert(b@.take(b@.len() as int) =~= b@);
}

} // verus!

//! Texts made of lines that end in a carriage return and a line feed, as heads are.
use crate::text::class;
use crate::text::facts;
use crate::text::search;
use vstd::prelude::*;

verus! {

/// A carriage return and a line feed.
pub open spec fn line_end() -> Seq<char> {
    seq!['\r', '\n']
}

/// The lines one after the other, each with its line end.
pub open spec fn ended_lines(lines: Seq<Seq<char>>) -> Seq<char>
    decreases lines.len(),
{
    if lines.len() == 0 {
        seq![]
    } else {
        lines[0] + line_end() + ended_lines(lines.skip(1))
    }
}

/// Whether a text can be a line of a head: there is something in it, and no line end.
pub open spec fn fits_a_line(line: Seq<char>) -> bool {
    line.len() > 0 && !facts::occurs(line, line_end())
}

/// A text without a line end in it, and a line end behind it, is the first piece.
pub proof fn line_is_split_off(line: Seq<char>, rest: Seq<char>)
    requires
        !facts::occurs(line, line_end()),
    ensures
        search::split_at_all(line + line_end() + rest, line_end()) == seq![line]
            + search::split_at_all(rest, line_end()),
{
    let end = line_end();
    let s = line + end + rest;
    let n = line.len() as int;
    assert(s.skip(n).take(2) =~= end);
    assert forall|j: int| 0 <= j < n implies !search::begins(#[trigger] s.skip(j), end) by {
        if search::begins(s.skip(j), end) {
            assert(s.skip(j).take(2)[0] == s[j]);
            assert(s.skip(j).take(2)[1] == s[j + 1]);
            assert(s[n] == '\r');
            assert(s[j + 1] == '\n');
            assert(j + 1 < n);
            assert(line.subrange(j, j + 2) =~= end);
            assert(facts::occurs(line, end));
        }
    }
    search::lemma_find_is(s, end, n);
    assert(s.take(n) =~= line);
    assert(s.skip(n + 2) =~= rest);
}

/// A text without a line end in it is one piece.
pub proof fn line_is_one_piece(line: Seq<char>)
    requires
        !facts::occurs(line, line_end()),
    ensures
        search::split_at_all(line, line_end()) == seq![line],
{
    facts::containing_is_occurring(line, line_end());
}

/// Lines with their ends are split into the lines, and what stands behind them.
pub proof fn lines_are_split(lines: Seq<Seq<char>>, rest: Seq<char>)
    requires
        forall|i: int| 0 <= i < lines.len() ==> !facts::occurs(#[trigger] lines[i], line_end()),
    ensures
        search::split_at_all(ended_lines(lines) + rest, line_end()) == lines
            + search::split_at_all(rest, line_end()),
    decreases lines.len(),
{
    if lines.len() == 0 {
        assert(ended_lines(lines) + rest =~= rest);
        assert(lines + search::split_at_all(rest, line_end()) =~= search::split_at_all(
            rest,
            line_end(),
        ));
    } else {
        let tail = lines.skip(1);
        assert forall|i: int| 0 <= i < tail.len() implies !facts::occurs(
            #[trigger] tail[i],
            line_end(),
        ) by {
            assert(tail[i] == lines[i + 1]);
        }
        lines_are_split(tail, rest);
        assert(ended_lines(lines) + rest =~= lines[0] + line_end() + (ended_lines(tail) + rest));
        assert(!facts::occurs(lines[0], line_end()));
        line_is_split_off(lines[0], ended_lines(tail) + rest);
        assert(seq![lines[0]] + (tail + search::split_at_all(rest, line_end())) =~= lines
            + search::split_at_all(rest, line_end()));
    }
}

/// Lines and an empty one behind them are split into the lines and two empty pieces.
pub proof fn head_is_split(lines: Seq<Seq<char>>)
    requires
        forall|i: int| 0 <= i < lines.len() ==> !facts::occurs(#[trigger] lines[i], line_end()),
    ensures
        search::split_at_all(ended_lines(lines) + line_end(), line_end()) == lines + seq![
            Seq::<char>::empty(),
            Seq::<char>::empty(),
        ],
{
    let nothing = Seq::<char>::empty();
    lines_are_split(lines, line_end());
    assert(!facts::occurs(nothing, line_end()));
    assert(line_end() =~= nothing + line_end() + nothing);
    line_is_split_off(nothing, nothing);
    line_is_one_piece(nothing);
    assert(seq![nothing] + seq![nothing] =~= seq![nothing, nothing]);
}

/// Dropping the empty ones keeps lines that are not.
pub proof fn full_lines_are_kept(lines: Seq<Seq<char>>, empty: nat)
    requires
        forall|i: int| 0 <= i < lines.len() ==> (#[trigger] lines[i]).len() > 0,
    ensures
        class::non_empty(lines + Seq::new(empty, |i: int| Seq::<char>::empty())) == lines,
    decreases lines.len() + empty,
{
    let blanks = Seq::new(empty, |i: int| Seq::<char>::empty());
    let all = lines + blanks;
    if lines.len() > 0 {
        let tail = lines.skip(1);
        assert forall|i: int| 0 <= i < tail.len() implies (#[trigger] tail[i]).len() > 0 by {
            assert(tail[i] == lines[i + 1]);
        }
        full_lines_are_kept(tail, empty);
        assert(all.skip(1) =~= tail + blanks);
        assert(all[0] == lines[0]);
        assert(seq![lines[0]] + tail =~= lines);
    } else if empty > 0 {
        full_lines_are_kept(lines, (empty - 1) as nat);
        assert(all.skip(1) =~= lines + Seq::new(
            (empty - 1) as nat,
            |i: int| Seq::<char>::empty(),
        ));
        assert(all[0].len() == 0);
    } else {
        assert(lines =~= Seq::<Seq<char>>::empty());
    }
}

/// A text without white space has no line end in it.
pub proof fn no_white_space_no_line_end(s: Seq<char>)
    requires
        facts::no_white(s),
    ensures
        !facts::occurs(s, line_end()),
{
    if facts::occurs(s, line_end()) {
        let i = choose|i: int|
            0 <= i && i + line_end().len() <= s.len() && #[trigger] s.subrange(
                i,
                i + line_end().len(),
            ) == line_end();
        assert(s.subrange(i, i + 2)[0] == s[i]);
        assert(s[i] == '\r');
        assert(facts::is_white(s[i]));
    }
}

} // verus!

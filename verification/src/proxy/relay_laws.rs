//! What the client gets of a response, told by the head that the upstream service sent and the bytes
//! behind it.
use crate::proxy;
use crate::proxy::bytes;
use crate::proxy::guard_laws;
use crate::proxy::relay;
use crate::proxy::relay::{ChunkFrame, RelayModel, RelayNext, RelayStepModel, UpstreamEventModel};
use crate::proxy::response;
use crate::proxy::response::Framing;
use crate::text::class;
use crate::text::class::CharClass;
use crate::text::crlf;
use crate::text::facts;
use crate::text::laws;
use crate::text::number;
use crate::text::search;
use crate::text::std_calls;
use vstd::prelude::*;
use vstd::utf8;

verus! {

/// Whether a head reads as a status line and header lines, with an empty line behind them.
pub open spec fn reads_as(head: Seq<u8>, status_line: Seq<char>, lines: Seq<Seq<char>>) -> bool {
    &&& guard_laws::is_whole_head(head)
    &&& std_calls::lossy_text(head) == status_line + crlf::line_end() + crlf::ended_lines(lines)
        + crlf::line_end()
    &&& !facts::occurs(status_line, crlf::line_end())
    &&& forall|i: int| 0 <= i < lines.len() ==> crlf::fits_a_line(#[trigger] lines[i])
}

/// Whether a header line is of that name, in lower case, and that value, with white space around
/// them.
pub open spec fn is_header(line: Seq<char>, lower: Seq<char>, value: Seq<char>) -> bool {
    exists|name: Seq<char>, b: Seq<char>, c: Seq<char>, d: Seq<char>|
        {
            &&& line == #[trigger] (name + b + seq![':'] + (c + value + d))
            &&& laws::lacks(name, ':') && std_calls::lowercase(name) == lower
            &&& facts::clean_ends(name) && facts::clean_ends(value)
            &&& facts::all_white(b) && facts::all_white(c) && facts::all_white(d)
        }
}

/// Whether a header line is of that name, in lower case, whatever its value is.
pub open spec fn is_named(line: Seq<char>, lower: Seq<char>) -> bool {
    exists|value: Seq<char>| is_header_of(line, lower, value)
}

/// Whether a line has a name, in lower case, in front of its first colon and this text behind it.
pub open spec fn is_header_of(line: Seq<char>, lower: Seq<char>, value: Seq<char>) -> bool {
    exists|name: Seq<char>|
        line == #[trigger] (name + seq![':'] + value) && laws::lacks(name, ':')
            && std_calls::lowercase(class::trimmed(name)) == lower
}

proof fn lemma_header(line: Seq<char>, lower: Seq<char>, value: Seq<char>)
    requires
        is_header(line, lower, value),
    ensures
        class::split_once(line, CharClass::Char(':')) matches Some((n, v)) && std_calls::lowercase(
            class::trimmed(n),
        ) == lower && class::trimmed(v) == value,
{
    let (name, b, c, d) = choose|name: Seq<char>, b: Seq<char>, c: Seq<char>, d: Seq<char>|
        {
            &&& line == #[trigger] (name + b + seq![':'] + (c + value + d))
            &&& laws::lacks(name, ':') && std_calls::lowercase(name) == lower
            &&& facts::clean_ends(name) && facts::clean_ends(value)
            &&& facts::all_white(b) && facts::all_white(c) && facts::all_white(d)
        };
    let left = name + b;
    assert(laws::lacks(left, ':')) by {
        assert forall|i: int| 0 <= i < left.len() implies #[trigger] left[i] != ':' by {
            if i < name.len() {
                assert(left[i] == name[i]);
            } else {
                assert(left[i] == b[i - name.len()]);
                assert(facts::is_white(b[i - name.len()]));
            }
        }
    }
    laws::split_once_parts(left, ':', c + value + d);
    let nothing = Seq::<char>::empty();
    facts::trimming_takes_white_space_off(nothing, name, b);
    assert(nothing + name + b =~= left);
    facts::trimming_takes_white_space_off(c, value, d);
}

proof fn lemma_not_named(line: Seq<char>, lower: Seq<char>)
    requires
        !is_named(line, lower),
    ensures
        class::split_once(line, CharClass::Char(':')) matches Some((n, v)) ==> std_calls::lowercase(
            class::trimmed(n),
        ) != lower,
{
    let k = CharClass::Char(':');
    class::lemma_class_index(line, k);
    let i = class::class_index(line, k);
    if i < line.len() {
        let name = line.take(i);
        let value = line.skip(i + 1);
        assert(line =~= name + seq![':'] + value);
        assert(laws::lacks(name, ':')) by {
            assert forall|j: int| 0 <= j < name.len() implies #[trigger] name[j] != ':' by {
                assert(!k.has(line[j]));
            }
        }
        if std_calls::lowercase(class::trimmed(name)) == lower {
            assert(is_header_of(line, lower, value));
        }
    }
}

/// Lines that name neither a length nor an encoding leave the framing as it is.
proof fn lemma_neutral(lines: Seq<Seq<char>>, from: int)
    requires
        0 <= from <= lines.len(),
        forall|i: int|
            from <= i < lines.len() ==> !is_named(#[trigger] lines[i], "content-length"@)
                && !is_named(lines[i], "transfer-encoding"@),
    ensures
        response::framing_of(lines) == response::framing_of(lines.take(from)),
    decreases lines.len() - from,
{
    if from < lines.len() {
        let front = lines.drop_last();
        assert forall|i: int| from <= i < front.len() implies !is_named(
            #[trigger] front[i],
            "content-length"@,
        ) && !is_named(front[i], "transfer-encoding"@) by {
            assert(front[i] == lines[i]);
        }
        lemma_neutral(front, from);
        assert(front.take(from) =~= lines.take(from));
        assert(!is_named(lines[lines.len() - 1], "content-length"@));
        lemma_not_named(lines.last(), "content-length"@);
        lemma_not_named(lines.last(), "transfer-encoding"@);
    } else {
        assert(lines.take(from) =~= lines);
    }
}

/// Lines without an encoding leave the body unchunked.
proof fn lemma_unchunked(lines: Seq<Seq<char>>)
    requires
        forall|i: int|
            0 <= i < lines.len() ==> !is_named(#[trigger] lines[i], "transfer-encoding"@),
    ensures
        !response::framing_of(lines).chunked,
    decreases lines.len(),
{
    if lines.len() > 0 {
        let front = lines.drop_last();
        assert forall|i: int| 0 <= i < front.len() implies !is_named(
            #[trigger] front[i],
            "transfer-encoding"@,
        ) by {
            assert(front[i] == lines[i]);
        }
        lemma_unchunked(front);
        assert(!is_named(lines[lines.len() - 1], "transfer-encoding"@));
        lemma_not_named(lines.last(), "transfer-encoding"@);
    }
}

/// A chunked encoding anywhere among the lines makes the body chunked.
proof fn lemma_chunked(lines: Seq<Seq<char>>, at: int, value: Seq<char>)
    requires
        0 <= at < lines.len(),
        is_header(lines[at], "transfer-encoding"@, value),
        facts::occurs(std_calls::lowercase(value), "chunked"@),
    ensures
        response::framing_of(lines).chunked,
    decreases lines.len(),
{
    if at < lines.len() - 1 {
        assert(lines.drop_last()[at] == lines[at]);
        lemma_chunked(lines.drop_last(), at, value);
    } else {
        lemma_header(lines[at], "transfer-encoding"@, value);
        facts::containing_is_occurring(std_calls::lowercase(value), "chunked"@);
        reveal_strlit("content-length");
        reveal_strlit("transfer-encoding");
        assert("content-length"@.len() != "transfer-encoding"@.len());
    }
}

/// What the relay reads of a head.
proof fn lemma_head_read(head: Seq<u8>, status_line: Seq<char>, lines: Seq<Seq<char>>)
    requires
        reads_as(head, status_line, lines),
    ensures
        response::response_lines(head)[0] == status_line,
        response::framing_of(response::response_lines(head).skip(1)) == response::framing_of(lines),
{
    reveal_strlit("\r\n");
    assert("\r\n"@ =~= crlf::line_end());
    let nothing = Seq::<char>::empty();
    let all = seq![status_line] + lines;
    assert forall|i: int| 0 <= i < all.len() implies !facts::occurs(
        #[trigger] all[i],
        crlf::line_end(),
    ) by {
        if i > 0 {
            assert(all[i] == lines[i - 1]);
            assert(crlf::fits_a_line(lines[i - 1]));
        }
    }
    assert(all.skip(1) =~= lines);
    assert(std_calls::lossy_text(head) =~= crlf::ended_lines(all) + crlf::line_end());
    crlf::head_is_split(all);
    let pieces = response::response_lines(head);
    let rest = pieces.skip(1);
    assert(rest =~= lines + seq![nothing, nothing]);
    assert(rest.take(lines.len() as int) =~= lines);
    assert forall|i: int| lines.len() <= i < rest.len() implies !is_named(
        #[trigger] rest[i],
        "content-length"@,
    ) && !is_named(rest[i], "transfer-encoding"@) by {
        assert(rest[i].len() == 0);
    }
    lemma_neutral(rest, lines.len() as int);
}

/// The status that is logged of a response is the number behind the first word of its status line,
/// and 200 where there is none that fits.
pub proof fn status_is_the_second_word(protocol: Seq<char>, code: u16, c: char, rest: Seq<char>)
    requires
        facts::no_white(protocol),
        protocol.len() > 0,
        facts::is_white(c),
    ensures
        response::or_ok(
            response::status_in_line(
                protocol + seq![' '] + (number::decimal(code as nat) + seq![c] + rest),
            ),
        ) == code,
        response::or_ok(
            response::status_in_line(protocol + seq![' '] + number::decimal(code as nat)),
        ) == code,
        response::or_ok(response::status_in_line(protocol)) == 200,
        facts::no_white(rest) && rest.len() > 0 && !(number::decimal_value(rest) matches Some(n) && n
            <= 65535) ==> response::or_ok(
            response::status_in_line(protocol + seq![' '] + rest),
        ) == 200,
{
    if facts::no_white(rest) && rest.len() > 0 {
        facts::words_come_one_by_one(protocol, ' ', rest);
        facts::words_come_one_by_one(rest, ' ', Seq::<char>::empty());
        assert(class::words(protocol + seq![' '] + rest)[1] == rest);
    }
    let digits = number::decimal(code as nat);
    let nothing = Seq::<char>::empty();
    number::decimal_reads_back(code as nat);
    assert(facts::no_white(digits)) by {
        assert forall|i: int| 0 <= i < digits.len() implies !facts::is_white(#[trigger] digits[i]) by {
            assert('0' <= digits[i] <= '9');
        }
    }
    facts::words_come_one_by_one(protocol, ' ', digits + seq![c] + rest);
    facts::words_come_one_by_one(protocol, ' ', digits);
    facts::words_come_one_by_one(digits, c, rest);
    assert(class::words(protocol + seq![' '] + (digits + seq![c] + rest))[1] == digits);
    assert(class::words(protocol + seq![' '] + digits)[1] == digits);
}

/// What the client is sent when a response begins, and what becomes of it.
pub open spec fn begun(head: Seq<u8>, body: Seq<u8>, cookie: Option<Seq<char>>) -> RelayStepModel {
    relay::relay_step(
        RelayModel::Head(seq![]),
        UpstreamEventModel::Bytes(head + body),
        cookie,
    )
}

/// A response whose head announces the length of its body, and no encoding, is relayed whole: the
/// client is sent the head and then every byte of the body as it comes; the response is done exactly
/// once the announced number of bytes has been sent, with the status of its first line; and bytes
/// beyond these are not passed on. Of several lengths the last one counts.
pub proof fn sized_responses_are_relayed_whole(
    head: Seq<u8>,
    status_line: Seq<char>,
    lines: Seq<Seq<char>>,
    at: int,
    length: nat,
    body: Seq<u8>,
    beyond: Seq<u8>,
)
    requires
        reads_as(head, status_line, lines),
        0 <= at < lines.len(),
        is_header(lines[at], "content-length"@, number::decimal(length)),
        length <= usize::MAX,
        forall|i: int| at < i < lines.len() ==> !is_named(#[trigger] lines[i], "content-length"@),
        forall|i: int|
            0 <= i < lines.len() ==> !is_named(#[trigger] lines[i], "transfer-encoding"@),
        body.len() <= length,
    ensures
        ({
            let step = begun(head, body, None);
            &&& proxy::laws::written(step) == head + body
            &&& step.next == if body.len() == length {
                RelayNext::Done(response::or_ok(response::status_in_line(status_line)))
            } else {
                RelayNext::Continue
            }
        }),
        body.len() == length ==> {
            let step = begun(head, body + beyond, None);
            &&& proxy::laws::written(step) == head + body
            &&& step.next == RelayNext::Done(
                response::or_ok(response::status_in_line(status_line)),
            )
        },
{
    lemma_head_read(head, status_line, lines);
    let upto = lines.take(at + 1);
    assert(upto.last() == lines[at]);
    lemma_header(lines[at], "content-length"@, number::decimal(length));
    number::decimal_reads_back(length);
    assert(response::framing_of(upto).content_length == Some(length));
    lemma_neutral(lines, at + 1);
    lemma_unchunked(lines);
    guard_laws::heads_end_at_the_first_empty_line(head, body);
    guard_laws::heads_end_at_the_first_empty_line(head, body + beyond);
    let nothing = Seq::<u8>::empty();
    assert(nothing + (head + body) =~= head + body);
    assert(nothing + (head + (body + beyond)) =~= head + (body + beyond));
    assert(body.take(body.len() as int) =~= body);
    if body.len() == length {
        assert((body + beyond).take(length as int) =~= body);
    }
}

/// Once the head of a sized response is sent, the rest of the body is passed on byte by byte until
/// nothing is left; a service that stops before that makes the relay fail.
pub proof fn sized_bodies_are_passed_on(
    status: u16,
    left: nat,
    b: Seq<u8>,
    cookie: Option<Seq<char>>,
)
    ensures
        ({
            let step = relay::relay_step(
                RelayModel::Sized(status, left),
                UpstreamEventModel::Bytes(b),
                cookie,
            );
            &&& b.len() < left ==> proxy::laws::written(step) == b && step.next is Continue && step.state
                == RelayModel::Sized(status, (left - b.len()) as nat)
            &&& b.len() >= left ==> proxy::laws::written(step) == b.subrange(0, left as int) && step.next
                == RelayNext::Done(status)
        }),
        relay::relay_step(
            RelayModel::Sized(status, left),
            UpstreamEventModel::Closed,
            cookie,
        ).next is Fail,
        relay::relay_step(
            RelayModel::Sized(status, left),
            UpstreamEventModel::Failed,
            cookie,
        ).next is Fail,
{
    let nothing = Seq::<u8>::empty();
    if b.len() < left {
        assert(nothing + b.take(b.len() as int) =~= b);
    } else {
        assert(nothing + b.take(left as int) =~= b.subrange(0, left as int));
    }
}

/// A response whose head announces neither a length nor an encoding is relayed as it comes, all of
/// it, until the service closes; then it is done.
pub proof fn undelimited_responses_are_relayed_to_the_end(
    head: Seq<u8>,
    status_line: Seq<char>,
    lines: Seq<Seq<char>>,
    body: Seq<u8>,
    more: Seq<u8>,
    rest: Seq<char>,
)
    requires
        reads_as(head, status_line, lines),
        laws::lacks(status_line, '\n'),
        std_calls::lossy_text(head + body) == status_line + crlf::line_end() + rest,
        forall|i: int|
            0 <= i < lines.len() ==> !is_named(#[trigger] lines[i], "content-length"@)
                && !is_named(lines[i], "transfer-encoding"@),
    ensures
        ({
            let step = begun(head, body, None);
            let next = relay::relay_step(step.state, UpstreamEventModel::Bytes(more), None);
            let last = relay::relay_step(next.state, UpstreamEventModel::Closed, None);
            &&& proxy::laws::written(step) == head + body && step.next is Continue
            &&& proxy::laws::written(next) == more && next.next is Continue
            &&& proxy::laws::written(last).len() == 0 && last.next == RelayNext::Done(
                response::or_ok(response::status_in_line(status_line)),
            )
            &&& relay::relay_step(next.state, UpstreamEventModel::Failed, None).next is Fail
        }),
{
    lemma_head_read(head, status_line, lines);
    lemma_neutral(lines, 0);
    assert(lines.take(0) =~= Seq::<Seq<char>>::empty());
    guard_laws::heads_end_at_the_first_empty_line(head, body);
    let nothing = Seq::<u8>::empty();
    assert(nothing + (head + body) =~= head + body);
    assert(nothing + more =~= more);
    lemma_status_code(head + body, status_line, rest);
}

/// The status of a response is that of its first line.
proof fn lemma_status_code(b: Seq<u8>, status_line: Seq<char>, rest: Seq<char>)
    requires
        laws::lacks(status_line, '\n'),
        std_calls::lossy_text(b) == status_line + crlf::line_end() + rest,
    ensures
        response::status_code(b) == response::status_in_line(status_line),
{
    let l = status_line.push('\r');
    assert(laws::lacks(l, '\n'));
    assert(std_calls::lossy_text(b) =~= l + seq!['\n'] + rest);
    facts::lines_come_one_by_one(l, rest);
    assert(l.take(l.len() - 1) =~= status_line);
}

/// The text of a size line begins with the size in hexadecimal; behind it the line ends or an
/// extension begins.
pub open spec fn announces(line: Seq<u8>, size: nat) -> bool {
    let text = std_calls::lossy_text(line);
    let digits = number::hexadecimal(size);
    text == digits || exists|extension: Seq<char>|
        text == #[trigger] (digits + seq![';'] + extension)
}

/// Whether a line of bytes has no line end in it.
pub open spec fn is_byte_line(line: Seq<u8>) -> bool {
    forall|j: int| 0 <= j < line.len() ==> #[trigger] line[j] != 13
}

/// A chunk: its size line, as many bytes as that announces, and a line end behind each.
pub open spec fn chunk(line: Seq<u8>, data: Seq<u8>) -> Seq<u8> {
    line + seq![13u8, 10u8] + data + seq![13u8, 10u8]
}

proof fn lemma_first_chunk(line: Seq<u8>, data: Seq<u8>, more: Seq<u8>)
    requires
        is_byte_line(line),
        announces(line, data.len()),
        chunk(line, data).len() <= usize::MAX,
    ensures
        relay::first_chunk(chunk(line, data) + more) == (ChunkFrame::Whole {
            length: chunk(line, data).len(),
            last: data.len() == 0,
        }),
{
    let b = chunk(line, data) + more;
    let n = line.len() as int;
    let mark = bytes::crlf();
    assert(b.skip(n).take(2) =~= mark);
    assert forall|j: int| 0 <= j < n implies !search::begins(#[trigger] b.skip(j), mark) by {
        assert(line[j] != 13);
        if search::begins(b.skip(j), mark) {
            assert(b.skip(j).take(2)[0] == b[j]);
        }
    }
    search::lemma_find_is(b, mark, n);
    assert(b.take(n) =~= line);
    lemma_chunk_size(line, data.len());
}

proof fn lemma_chunk_size(line: Seq<u8>, size: nat)
    requires
        announces(line, size),
        size <= usize::MAX,
    ensures
        response::chunk_size(line) == Some(size),
{
    let text = std_calls::lossy_text(line);
    let digits = number::hexadecimal(size);
    let k = CharClass::Char(';');
    number::hexadecimal_reads_back(size);
    assert forall|i: int| 0 <= i < digits.len() implies #[trigger] digits[i] != ';'
        && !facts::is_white(digits[i]) by {
        assert(number::hex_digit_value(digits[i]) is Some);
    }
    assert(laws::lacks(digits, ';'));
    if text == digits {
        laws::split_whole(digits, ';');
    } else {
        let extension = choose|extension: Seq<char>|
            text == #[trigger] (digits + seq![';'] + extension);
        laws::split_once_parts(digits, ';', extension);
        assert(text.take(digits.len() as int) =~= digits);
        assert(class::split(text, k)[0] == digits);
    }
    let nothing = Seq::<char>::empty();
    facts::trimming_takes_white_space_off(nothing, digits, nothing);
    assert(nothing + digits + nothing =~= digits);
}

/// A body in chunks is passed on chunk by chunk: a whole chunk is sent as it came, and then the
/// relay goes on as if the body began behind it; an empty chunk ends the response.
pub proof fn chunks_are_passed_on(
    status: u16,
    line: Seq<u8>,
    data: Seq<u8>,
    more: Seq<u8>,
    cookie: Option<Seq<char>>,
)
    requires
        is_byte_line(line),
        announces(line, data.len()),
        chunk(line, data).len() <= usize::MAX,
    ensures
        ({
            let state = RelayModel::Chunked(status, seq![]);
            let step = relay::relay_step(
                state,
                UpstreamEventModel::Bytes(chunk(line, data) + more),
                cookie,
            );
            let rest = relay::relay_step(state, UpstreamEventModel::Bytes(more), cookie);
            &&& data.len() == 0 ==> proxy::laws::written(step) == chunk(line, data) && step.next
                == RelayNext::Done(status)
            &&& data.len() > 0 ==> proxy::laws::written(step) == chunk(line, data) + proxy::laws::written(rest) && step.next
                == rest.next && step.state == rest.state
        }),
{
    let c = chunk(line, data);
    let b = c + more;
    let nothing = Seq::<u8>::empty();
    lemma_first_chunk(line, data, more);
    assert(nothing + b =~= b);
    assert(nothing + more =~= more);
    assert(b.skip(c.len() as int) =~= more);
    proxy::laws::chunk_run_is_within(more);
    let (sent, end) = relay::chunk_run(more);
    if data.len() == 0 {
        assert(b.take(c.len() as int) =~= c);
        assert(nothing + b.take(c.len() as int) =~= c);
    } else {
        assert(relay::chunk_run(b) == (c.len() + sent, end));
        assert(b.take((c.len() + sent) as int) =~= c + more.take(sent as int));
        assert(b.skip((c.len() + sent) as int) =~= more.skip(sent as int));
        assert(nothing + b.take((c.len() + sent) as int) =~= c + (nothing + more.take(
            sent as int,
        )));
    }
}

/// Part of a chunk is kept back until the rest of it comes; a service that stops before the last
/// chunk makes the relay fail.
pub proof fn parts_of_chunks_are_awaited(
    status: u16,
    line: Seq<u8>,
    data: Seq<u8>,
    n: int,
    cookie: Option<Seq<char>>,
)
    requires
        is_byte_line(line),
        announces(line, data.len()),
        chunk(line, data).len() <= usize::MAX,
        0 <= n < chunk(line, data).len(),
    ensures
        ({
            let part = chunk(line, data).take(n);
            let step = relay::relay_step(
                RelayModel::Chunked(status, seq![]),
                UpstreamEventModel::Bytes(part),
                cookie,
            );
            &&& proxy::laws::written(step).len() == 0 && step.next is Continue
            &&& step.state == RelayModel::Chunked(status, part)
            &&& relay::relay_step(step.state, UpstreamEventModel::Closed, cookie).next is Fail
            &&& relay::relay_step(step.state, UpstreamEventModel::Failed, cookie).next is Fail
        }),
{
    let whole = chunk(line, data);
    let part = whole.take(n);
    let rest = whole.skip(n);
    let nothing = Seq::<u8>::empty();
    assert(nothing + part =~= part);
    assert(part + rest =~= whole);
    assert(whole + nothing =~= whole);
    lemma_first_chunk(line, data, nothing);
    if !(relay::first_chunk(part) is Partial) {
        lemma_first_chunk_keeps(part, rest);
    }
    assert(part.skip(0) =~= part);
}

proof fn lemma_first_chunk_keeps(b: Seq<u8>, more: Seq<u8>)
    requires
        !(relay::first_chunk(b) is Partial),
    ensures
        relay::first_chunk(b + more) == relay::first_chunk(b),
        relay::first_chunk(b) matches ChunkFrame::Whole { length, .. } ==> length <= b.len(),
{
    bytes::lemma_marker_stays(b, more, bytes::crlf());
    search::lemma_find(b, bytes::crlf());
    let end = search::find(b, bytes::crlf())->0;
    assert((b + more).take(end) =~= b.take(end));
}

/// A response whose head announces chunks is relayed in chunks, whatever length it announces
/// besides: the client is sent the head, and behind it what is passed on of the chunks.
pub proof fn chunked_responses_are_relayed_in_chunks(
    head: Seq<u8>,
    status_line: Seq<char>,
    lines: Seq<Seq<char>>,
    at: int,
    encoding: Seq<char>,
    body: Seq<u8>,
)
    requires
        reads_as(head, status_line, lines),
        0 <= at < lines.len(),
        is_header(lines[at], "transfer-encoding"@, encoding),
        facts::occurs(std_calls::lowercase(encoding), "chunked"@),
    ensures
        ({
            let step = begun(head, body, None);
            let status = response::or_ok(response::status_in_line(status_line));
            let chunks = relay::relay_step(
                RelayModel::Chunked(status, seq![]),
                UpstreamEventModel::Bytes(body),
                None,
            );
            &&& proxy::laws::written(step) == head + proxy::laws::written(chunks)
            &&& step.next == chunks.next
            &&& step.state == chunks.state
        }),
{
    lemma_head_read(head, status_line, lines);
    lemma_chunked(lines, at, encoding);
    guard_laws::heads_end_at_the_first_empty_line(head, body);
    let nothing = Seq::<u8>::empty();
    assert(nothing + (head + body) =~= head + body);
    assert(nothing + body =~= body);
    let step = begun(head, body, None);
    assert(nothing + step.body =~= step.body);
}

/// The cookie changes the head that the client is sent and nothing else.
pub proof fn cookie_changes_the_head_alone(
    state: RelayModel,
    event: UpstreamEventModel,
    token: Seq<char>,
)
    ensures
        ({
            let with = relay::relay_step(state, event, Some(token));
            let without = relay::relay_step(state, event, None);
            &&& with.body == without.body && with.next == without.next && with.state
                == without.state
            &&& without.head.len() == 0 ==> with.head.len() == 0
            &&& !(state is Head) ==> with == without
        }),
{
    reveal_strlit("\r\n\r\n");
    if let (RelayModel::Head(pending), UpstreamEventModel::Bytes(b)) = (state, event) {
        let buffer = pending + b;
        if let Some(end) = bytes::header_end(buffer) {
            search::lemma_find(buffer, bytes::blank_line());
            assert(end >= 4);
            assert(buffer.take(end).len() > 0);
        }
    }
}

/// A client that is handed the cookie gets the head as text, with a line for the cookie behind the
/// others, in front of the empty line.
pub proof fn cookie_is_the_last_header(
    head: Seq<u8>,
    status_line: Seq<char>,
    lines: Seq<Seq<char>>,
    body: Seq<u8>,
    token: Seq<char>,
)
    requires
        reads_as(head, status_line, lines),
    ensures
        begun(head, body, Some(token)).head == utf8::encode_utf8(
            status_line + crlf::line_end() + crlf::ended_lines(lines) + (
            "Set-Cookie: ltg_auth="@ + token + "; Path=/; HttpOnly; SameSite=Lax"@)
                + crlf::line_end() + crlf::line_end(),
        ),
{
    reveal_strlit("\r\n\r\n");
    reveal_strlit("\r\nSet-Cookie: ltg_auth=");
    reveal_strlit("Set-Cookie: ltg_auth=");
    guard_laws::heads_end_at_the_first_empty_line(head, body);
    let nothing = Seq::<u8>::empty();
    assert(nothing + (head + body) =~= head + body);
    let text = std_calls::lossy_text(head);
    let all = seq![status_line] + lines;
    assert(all.skip(1) =~= lines);
    let ended = status_line + crlf::line_end() + crlf::ended_lines(lines);
    assert(ended =~= crlf::ended_lines(all));
    lemma_ends_in_line_end(all);
    let n = text.len();
    let blank = "\r\n\r\n"@;
    assert(text =~= ended + crlf::line_end());
    assert(text.skip(n - 4) =~= blank) by {
        assert(ended.skip(ended.len() - 2) =~= crlf::line_end());
        assert(ended[ended.len() - 2] == ended.skip(ended.len() - 2)[0]);
        assert(ended[ended.len() - 1] == ended.skip(ended.len() - 2)[1]);
    }
    assert(search::ends(text, blank));
    assert(search::rfind(text, blank) == Some(n - 4));
    assert("\r\nSet-Cookie: ltg_auth="@ =~= crlf::line_end() + "Set-Cookie: ltg_auth="@);
    let front = text.take(n - 4);
    assert(ended =~= front + crlf::line_end());
    let line = "Set-Cookie: ltg_auth="@ + token + "; Path=/; HttpOnly; SameSite=Lax"@;
    assert(front + response::cookie_line(token) + text.skip(n - 4) =~= ended + line
        + crlf::line_end() + crlf::line_end());
}

proof fn lemma_ends_in_line_end(lines: Seq<Seq<char>>)
    requires
        lines.len() > 0,
    ensures
        crlf::ended_lines(lines).len() >= 2,
        crlf::ended_lines(lines).skip(crlf::ended_lines(lines).len() - 2) == crlf::line_end(),
    decreases lines.len(),
{
    let s = crlf::ended_lines(lines);
    let rest = lines.skip(1);
    if rest.len() > 0 {
        lemma_ends_in_line_end(rest);
        let t = crlf::ended_lines(rest);
        assert(s.skip(s.len() - 2) =~= t.skip(t.len() - 2));
    } else {
        assert(crlf::ended_lines(rest) =~= Seq::<char>::empty());
        assert(s.skip(s.len() - 2) =~= crlf::line_end());
    }
}

/// What the relay has read and not yet passed on.
pub open spec fn kept_back(state: RelayModel) -> Seq<u8> {
    match state {
        RelayModel::Head(pending) => pending,
        RelayModel::Chunked(_, pending) => pending,
        _ => seq![],
    }
}

/// Without a cookie the relay changes no byte and moves none: what it had kept back and what came is
/// what it writes, and then what it keeps back; only behind the end of a response are bytes left
/// unwritten.
pub proof fn no_byte_of_a_response_is_changed(state: RelayModel, b: Seq<u8>)
    ensures
        ({
            let step = relay::relay_step(state, UpstreamEventModel::Bytes(b), None);
            let all = kept_back(state) + b;
            &&& step.next is Continue ==> all == proxy::laws::written(step) + kept_back(step.state)
            &&& proxy::laws::written(step).len() <= all.len() && proxy::laws::written(step) == all.take(
                proxy::laws::written(step).len() as int,
            )
        }),
{
    let step = relay::relay_step(state, UpstreamEventModel::Bytes(b), None);
    let all = kept_back(state) + b;
    let nothing = Seq::<u8>::empty();
    match state {
        RelayModel::Head(pending) => {
            if let Some(end) = bytes::header_end(all) {
                search::lemma_find(all, bytes::blank_line());
                let rest = all.skip(end);
                proxy::laws::chunk_run_is_within(rest);
                assert(all =~= all.take(end) + rest);
                let n = step.body.len() as int;
                assert(step.body =~= rest.take(n));
                assert(proxy::laws::written(step) =~= all.take(end + n));
                if step.next is Continue {
                    assert(all =~= proxy::laws::written(step) + kept_back(step.state));
                }
            } else {
                assert(proxy::laws::written(step) =~= nothing);
                assert(all =~= proxy::laws::written(step) + all);
            }
        },
        RelayModel::Chunked(_, pending) => {
            proxy::laws::chunk_run_is_within(all);
            let n = relay::chunk_run(all).0 as int;
            assert(proxy::laws::written(step) =~= all.take(n));
            assert(all =~= all.take(n) + all.skip(n));
        },
        RelayModel::Sized(_, left) => {
            assert(all =~= b);
            assert(proxy::laws::written(step) =~= b.take(step.body.len() as int));
            if step.next is Continue {
                assert(all =~= proxy::laws::written(step) + nothing);
            }
        },
        RelayModel::Stream(_) => {
            assert(all =~= b);
            assert(proxy::laws::written(step) =~= b);
            assert(all =~= proxy::laws::written(step) + nothing);
        },
    }
}

/// A service that closes before the head of its response is complete has sent all that it will: the
/// client is sent that, and the response is done, with the status of its first line.
pub proof fn headless_responses_are_passed_on(
    pending: Seq<u8>,
    cookie: Option<Seq<char>>,
    status_line: Seq<char>,
    rest: Seq<char>,
)
    requires
        laws::lacks(status_line, '\n'),
    ensures
        ({
            let step = relay::relay_step(
                RelayModel::Head(pending),
                UpstreamEventModel::Closed,
                cookie,
            );
            &&& proxy::laws::written(step) == pending && step.next is Done
            &&& std_calls::lossy_text(pending) == status_line + crlf::line_end() + rest
                ==> step.next == RelayNext::Done(
                response::or_ok(response::status_in_line(status_line)),
            )
        }),
        relay::relay_step(RelayModel::Head(pending), UpstreamEventModel::Failed, cookie).next is Fail,
{
    assert(Seq::<u8>::empty() + pending =~= pending);
    if std_calls::lossy_text(pending) == status_line + crlf::line_end() + rest {
        lemma_status_code(pending, status_line, rest);
    }
}

/// The length that a header line announces is the framing's from there on, also where it is no
/// number; lines of other names leave it.
pub proof fn last_length_counts(lines: Seq<Seq<char>>, line: Seq<char>, value: Seq<char>)
    ensures
        is_header(line, "content-length"@, value) ==> response::framing_of(
            lines.push(line),
        ).content_length == match number::decimal_value(value) {
            Some(n) => if n <= usize::MAX {
                Some(n)
            } else {
                None
            },
            None => None,
        },
        !is_named(line, "content-length"@) ==> response::framing_of(
            lines.push(line),
        ).content_length == response::framing_of(lines).content_length,
        response::framing_of(seq![]) == (Framing { content_length: None, chunked: false }),
{
    assert(lines.push(line).drop_last() =~= lines);
    if is_header(line, "content-length"@, value) {
        lemma_header(line, "content-length"@, value);
    }
    if !is_named(line, "content-length"@) {
        lemma_not_named(line, "content-length"@);
    }
}

/// Where writing fails, or the relay cannot go on, the report tells how the body was delimited; and
/// where nothing could be read, it tells that.
pub proof fn reports_tell_how_the_body_was_delimited(
    state: RelayModel,
    event: UpstreamEventModel,
    cookie: Option<Seq<char>>,
)
    ensures
        ({
            let report = relay::relay_step(state, event, cookie).failure;
            &&& state is Sized ==> report == "failed to stream upstream response body"@
            &&& state is Chunked ==> report == "failed to stream chunked upstream response"@
            &&& (state is Stream || state is Head) && event is Failed ==> report
                == "failed to read upstream response"@
            &&& state is Stream && !(event is Failed) ==> report
                == "failed to stream upstream response"@
        }),
{
}

/// A size line that spells no number in hexadecimal, or one too large for a size, makes the relay fail: what stands before it has
/// been passed on, and nothing from it on is.
pub proof fn broken_chunks_make_the_relay_fail(
    status: u16,
    line: Seq<u8>,
    more: Seq<u8>,
    cookie: Option<Seq<char>>,
)
    requires
        is_byte_line(line),
        laws::lacks(std_calls::lossy_text(line), ';'),
        facts::clean_ends(std_calls::lossy_text(line)),
        !(number::hex_value(std_calls::lossy_text(line)) matches Some(n) && n <= usize::MAX),
    ensures
        ({
            let step = relay::relay_step(
                RelayModel::Chunked(status, seq![]),
                UpstreamEventModel::Bytes(line + seq![13u8, 10u8] + more),
                cookie,
            );
            proxy::laws::written(step).len() == 0 && step.next is Fail
        }),
{
    let b = line + seq![13u8, 10u8] + more;
    let n = line.len() as int;
    let mark = bytes::crlf();
    let nothing = Seq::<char>::empty();
    let text = std_calls::lossy_text(line);
    assert(Seq::<u8>::empty() + b =~= b);
    assert(b.skip(n).take(2) =~= mark);
    assert forall|j: int| 0 <= j < n implies !search::begins(#[trigger] b.skip(j), mark) by {
        assert(line[j] != 13);
        if search::begins(b.skip(j), mark) {
            assert(b.skip(j).take(2)[0] == b[j]);
        }
    }
    search::lemma_find_is(b, mark, n);
    assert(b.take(n) =~= line);
    laws::split_whole(text, ';');
    facts::trimming_takes_white_space_off(nothing, text, nothing);
    assert(nothing + text + nothing =~= text);
}

} // verus!

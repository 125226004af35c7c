//! What a refused client is told, and what the log says of requests.
use crate::proxy::access;
use crate::proxy::access::LogEntryModel;
use crate::proxy::guard::ForwardModel;
use crate::proxy::response;
use crate::text::class;
use crate::text::class::CharClass;
use crate::text::crlf;
use crate::text::laws;
use crate::text::number;
use crate::text::search;
use vstd::prelude::*;
use vstd::utf8;

verus! {

/// A refused client is sent a whole response: the status in its first line, the length of what
/// follows in bytes, that the connection is closed, and then the message on a line of its own.
pub proof fn refusals_are_whole_responses(status: u16, message: Seq<char>) -> (lines: Seq<Seq<char>>)
    ensures
        response::error_text(status, message) == "HTTP/1.1 "@ + number::decimal(status as nat)
            + " ERROR"@ + crlf::line_end() + crlf::ended_lines(lines) + crlf::line_end() + message
            + seq!['\n'],
        lines.len() == 3,
        lines[1] == "Content-Length: "@ + number::decimal(
            utf8::encode_utf8(message + seq!['\n']).len(),
        ),
        lines[2] == "Connection: close"@,
{
    reveal_strlit("\n");
    reveal_strlit(" ERROR");
    reveal_strlit("Content-Type: text/plain; charset=utf-8");
    reveal_strlit("Content-Length: ");
    reveal_strlit("Connection: close");
    reveal_strlit(" ERROR\r\nContent-Type: text/plain; charset=utf-8\r\nContent-Length: ");
    reveal_strlit("\r\nConnection: close\r\n\r\n");
    assert("\n"@ =~= seq!['\n']);
    let end = crlf::line_end();
    let size = number::decimal(utf8::encode_utf8(message + seq!['\n']).len());
    let first = "Content-Type: text/plain; charset=utf-8"@;
    let second = "Content-Length: "@ + size;
    let third = "Connection: close"@;
    let lines = seq![first, second, third];
    assert(lines.skip(1) =~= seq![second, third]);
    assert(lines.skip(1).skip(1) =~= seq![third]);
    assert(lines.skip(1).skip(1).skip(1) =~= Seq::<Seq<char>>::empty());
    reveal_with_fuel(crlf::ended_lines, 4);
    assert(crlf::ended_lines(lines) =~= first + end + second + end + third + end);
    assert(" ERROR\r\nContent-Type: text/plain; charset=utf-8\r\nContent-Length: "@ =~= " ERROR"@
        + end + first + end + "Content-Length: "@);
    assert("\r\nConnection: close\r\n\r\n"@ =~= end + third + end + end);
    assert(response::error_text(status, message) =~= "HTTP/1.1 "@ + number::decimal(status as nat)
        + " ERROR"@ + end + crlf::ended_lines(lines) + end + message + seq!['\n']);
    lines
}

/// A line of the log has the time, the address, the method, the path, the status and the user agent
/// of a request, with tabs between them, and a dash where there is no user agent.
pub proof fn log_lines_have_their_parts(now: u64, ip: Seq<char>, entry: LogEntryModel)
    requires
        laws::lacks(ip, '\t'),
        laws::lacks(entry.method, '\t'),
        laws::lacks(entry.path, '\t'),
        entry.user_agent matches Some(agent) ==> laws::lacks(agent, '\t'),
    ensures
        class::split(access::log_line(now, ip, entry), CharClass::Char('\t')) == seq![
            number::decimal(now as nat),
            ip,
            entry.method,
            entry.path,
            number::decimal(entry.status as nat),
            if entry.user_agent is Some {
                entry.user_agent->0
            } else {
                seq!['-']
            },
        ],
{
    reveal_strlit("\t");
    reveal_strlit("-");
    assert("\t"@ =~= seq!['\t']);
    assert("-"@ =~= seq!['-']);
    let tab = seq!['\t'];
    let agent = if entry.user_agent is Some {
        entry.user_agent->0
    } else {
        seq!['-']
    };
    let pieces = seq![
        number::decimal(now as nat),
        ip,
        entry.method,
        entry.path,
        number::decimal(entry.status as nat),
        agent,
    ];
    lemma_digits_lack_tabs(now as nat);
    lemma_digits_lack_tabs(entry.status as nat);
    assert forall|i: int| 0 <= i < pieces.len() implies laws::lacks(#[trigger] pieces[i], '\t') by {}
    let p1 = pieces.skip(1);
    let p2 = p1.skip(1);
    let p3 = p2.skip(1);
    let p4 = p3.skip(1);
    let p5 = p4.skip(1);
    reveal_with_fuel(search::joined, 6);
    assert(search::joined(pieces, tab) =~= access::log_line(now, ip, entry));
    laws::split_undoes_join(pieces, '\t');
}

proof fn lemma_digits_lack_tabs(n: nat)
    ensures
        laws::lacks(number::decimal(n), '\t'),
{
    let s = number::decimal(n);
    number::decimal_reads_back(n);
    assert forall|i: int| 0 <= i < s.len() implies #[trigger] s[i] != '\t' by {
        assert('0' <= s[i] <= '9');
    }
}

/// The visitor of a line stands behind its first tab, up to the next or the end; a line without a tab
/// tells of none.
pub proof fn visitors_stand_behind_the_first_tab(
    front: Seq<char>,
    visitor: Seq<char>,
    rest: Seq<char>,
)
    requires
        laws::lacks(front, '\t'),
        laws::lacks(visitor, '\t'),
    ensures
        access::visitor_in(front) is None,
        access::visitor_in(front + seq!['\t'] + visitor) == Some(visitor),
        access::visitor_in(front + seq!['\t'] + visitor + seq!['\t'] + rest) == Some(visitor),
{
    laws::split_whole(front, '\t');
    laws::split_whole(visitor, '\t');
    laws::split_appended(front, '\t', visitor);
    let both = front + seq!['\t'] + visitor;
    laws::split_appended(both, '\t', rest);
    assert(both + seq!['\t'] + rest =~= front + seq!['\t'] + visitor + seq!['\t'] + rest);
    laws::join_undoes_split(rest, '\t');
}

/// Another line adds its visitor to the end of the list, unless it is there already; every line is
/// counted.
pub proof fn new_visitors_are_added(lines: Seq<Seq<char>>, line: Seq<char>)
    ensures
        ({
            let before = access::visitors(lines);
            let now = access::visitors(lines.push(line));
            match access::visitor_in(line) {
                Some(v) => now == if before.contains(v) {
                    before
                } else {
                    before.push(v)
                },
                None => now == before,
            }
        }),
        access::visitors(seq![]).len() == 0,
        access::logged(None).len() == 0,
{
    assert(lines.push(line).drop_last() =~= lines);
}

/// A request that was forwarded and failed upstream is refused as a bad gateway, and logged with the
/// URI that the client sent.
pub proof fn upstream_failures_are_bad_gateways(forward: ForwardModel, message: Seq<char>)
    ensures
        ({
            let e = access::upstream_refusal(forward, message);
            e.status == 502 && e.message == message && e.path == forward.uri && e.method
                == forward.method && e.user_agent == forward.user_agent
        }),
{
}

} // verus!

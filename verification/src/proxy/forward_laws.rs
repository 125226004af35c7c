//! What the upstream service is sent of a request, and what the guard reads of it.
use crate::proxy;
use crate::proxy::guard;
use crate::proxy::request;
use crate::proxy::request::{HeadModel, HeaderModel};
use crate::proxy::tokens;
use crate::text::class;
use crate::text::class::CharClass;
use crate::text::crlf;
use crate::text::facts;
use crate::text::laws;
use crate::text::number;
use crate::text::search;
use crate::text::std_calls;
use vstd::prelude::*;

verus! {

/// Whether `line` is what the upstream service is sent of a header: the guard's own line for the
/// host and the connection, and any other header as the client sent it.
pub open spec fn stands_for(
    line: Seq<char>,
    header: (Seq<char>, Seq<char>),
    port: u16,
) -> bool {
    let name = std_calls::lowercase(header.0);
    if name == "host"@ {
        line == "Host: localhost:"@ + number::decimal(port as nat)
    } else if name == "connection"@ {
        line == "Connection: close"@
    } else {
        line == header.0 + seq![':', ' '] + header.1
    }
}

/// Whether `lines` are what the upstream service is sent of the headers, in order, with a host and a
/// connection line behind them where the client sent none.
pub open spec fn stand_for(
    lines: Seq<Seq<char>>,
    headers: Seq<(Seq<char>, Seq<char>)>,
    port: u16,
) -> bool {
    let n = headers.len() as int;
    let host = exists|i: int|
        0 <= i < n && std_calls::lowercase((#[trigger] headers[i]).0) == "host"@;
    let connection = exists|i: int|
        0 <= i < n && std_calls::lowercase((#[trigger] headers[i]).0) == "connection"@;
    let hosts: int = if host {
        0
    } else {
        1
    };
    &&& lines.len() == n + hosts + if connection {
        0int
    } else {
        1
    }
    &&& forall|i: int| 0 <= i < n ==> #[trigger] stands_for(lines[i], headers[i], port)
    &&& !host ==> lines[n] == "Host: localhost:"@ + number::decimal(port as nat)
    &&& !connection ==> lines[n + hosts] == "Connection: close"@
}

proof fn lemma_ended_push(lines: Seq<Seq<char>>, line: Seq<char>)
    ensures
        crlf::ended_lines(lines.push(line)) == crlf::ended_lines(lines) + (line
            + crlf::line_end()),
    decreases lines.len(),
{
    let all = lines.push(line);
    if lines.len() == 0 {
        assert(all.skip(1) =~= Seq::<Seq<char>>::empty());
        assert(crlf::ended_lines(all.skip(1)) =~= Seq::<char>::empty());
        assert(crlf::ended_lines(all) =~= crlf::ended_lines(lines) + (line + crlf::line_end()));
    } else {
        lemma_ended_push(lines.skip(1), line);
        assert(all.skip(1) =~= lines.skip(1).push(line));
        assert(crlf::ended_lines(all) =~= crlf::ended_lines(lines) + (line + crlf::line_end()));
    }
}

proof fn lemma_literals()
    ensures
        "\r\n"@ == crlf::line_end(),
        ": "@ == seq![':', ' '],
        " "@ == seq![' '],
        "Connection: close\r\n"@ == "Connection: close"@ + crlf::line_end(),
{
    reveal_strlit("\r\n");
    reveal_strlit(": ");
    reveal_strlit(" ");
    reveal_strlit("Connection: close\r\n");
    reveal_strlit("Connection: close");
    assert("\r\n"@ =~= crlf::line_end());
    assert(": "@ =~= seq![':', ' ']);
    assert(" "@ =~= seq![' ']);
    assert("Connection: close\r\n"@ =~= "Connection: close"@ + crlf::line_end());
}

/// The line that a header is forwarded as.
spec fn line_for(header: (Seq<char>, Seq<char>), port: u16) -> Seq<char> {
    let line = guard::forwarded_line(header, port);
    line.take(line.len() - 2)
}

proof fn lemma_line_for(header: (Seq<char>, Seq<char>), port: u16)
    ensures
        guard::forwarded_line(header, port) == line_for(header, port) + crlf::line_end(),
        stands_for(line_for(header, port), header, port),
{
    lemma_literals();
    let line = guard::forwarded_line(header, port);
    assert(line =~= line.take(line.len() - 2) + crlf::line_end());
    if std_calls::lowercase(header.0) == "host"@ {
        assert(line_for(header, port) =~= "Host: localhost:"@ + number::decimal(port as nat));
    } else if std_calls::lowercase(header.0) == "connection"@ {
        assert(line_for(header, port) =~= "Connection: close"@);
    } else {
        assert(line_for(header, port) =~= header.0 + seq![':', ' '] + header.1);
    }
}

proof fn lemma_forwarded(headers: Seq<(Seq<char>, Seq<char>)>, port: u16)
    ensures
        guard::forwarded_lines(headers, port) == crlf::ended_lines(
            headers.map_values(|h: (Seq<char>, Seq<char>)| line_for(h, port)),
        ),
    decreases headers.len(),
{
    let f = |h: (Seq<char>, Seq<char>)| line_for(h, port);
    if headers.len() > 0 {
        lemma_forwarded(headers.drop_last(), port);
        lemma_line_for(headers.last(), port);
        lemma_ended_push(headers.drop_last().map_values(f), line_for(headers.last(), port));
        assert(headers.map_values(f) =~= headers.drop_last().map_values(f).push(
            line_for(headers.last(), port),
        ));
    } else {
        assert(headers.map_values(f) =~= Seq::<Seq<char>>::empty());
    }
}

/// The upstream service is sent the client's method, its URI without the share token and its
/// version, on a line with single blanks between them; then a line for each header, in order, with
/// the guard's own for the host, which is the service's, and for the connection, which is closed;
/// and an empty line.
pub proof fn upstream_is_sent_the_request(head: HeadModel, port: u16) -> (lines: Seq<Seq<char>>)
    ensures
        stand_for(lines, head.fields.headers, port),
        guard::upstream_request(head, port) == head.method + seq![' '] + guard::upstream_uri(
            head.uri,
        ) + seq![' '] + head.version + crlf::line_end() + crlf::ended_lines(lines)
            + crlf::line_end(),
{
    lemma_literals();
    let headers = head.fields.headers;
    let f = |h: (Seq<char>, Seq<char>)| line_for(h, port);
    let own = headers.map_values(f);
    lemma_forwarded(headers, port);
    let host = guard::has_header(headers, "host"@);
    let connection = guard::has_header(headers, "connection"@);
    let host_text = "Host: localhost:"@ + number::decimal(port as nat);
    let with_host = if host {
        own
    } else {
        own.push(host_text)
    };
    let lines = if connection {
        with_host
    } else {
        with_host.push("Connection: close"@)
    };
    lemma_ended_push(own, host_text);
    lemma_ended_push(with_host, "Connection: close"@);
    assert(guard::host_line(port) =~= host_text + crlf::line_end());
    assert forall|i: int| 0 <= i < headers.len() implies #[trigger] stands_for(
        lines[i],
        headers[i],
        port,
    ) by {
        lemma_line_for(headers[i], port);
        assert(own[i] == line_for(headers[i], port));
        assert(lines[i] == own[i]);
    }
    let whole = head.method + seq![' '] + guard::upstream_uri(head.uri) + seq![' '] + head.version
        + crlf::line_end();
    assert(guard::upstream_request(head, port) =~= whole + crlf::ended_lines(lines)
        + crlf::line_end());
    lines
}

/// The method, the URI and the version of a head that was read are words, and the first and the last
/// are never empty.
pub proof fn request_line_is_made_of_words(head: Seq<u8>)
    ensures
        ({
            let h = request::head_of(head);
            &&& facts::no_white(h.method) && h.method.len() > 0
            &&& facts::no_white(h.uri) && h.uri.len() > 0
            &&& facts::no_white(h.version) && h.version.len() > 0
        }),
{
    reveal_strlit("GET");
    reveal_strlit("/");
    reveal_strlit("HTTP/1.1");
    let line = request::nth_or(request::head_lines(head), 0, seq![]);
    facts::words_have_no_white_space(line);
    assert(facts::no_white("GET"@));
    assert(facts::no_white("/"@));
    assert(facts::no_white("HTTP/1.1"@));
}

/// A head is read as it is written: the words of its first line are the method, the URI and the
/// version, and the lines behind it are its header lines.
pub proof fn heads_are_read_as_written(
    head: Seq<u8>,
    method: Seq<char>,
    uri: Seq<char>,
    version: Seq<char>,
    lines: Seq<Seq<char>>,
)
    requires
        facts::no_white(method) && method.len() > 0,
        facts::no_white(uri) && uri.len() > 0,
        facts::no_white(version) && version.len() > 0,
        forall|i: int| 0 <= i < lines.len() ==> crlf::fits_a_line(#[trigger] lines[i]),
        std_calls::lossy_text(head) == method + seq![' '] + uri + seq![' '] + version
            + crlf::line_end() + crlf::ended_lines(lines) + crlf::line_end(),
    ensures
        request::head_of(head) == (HeadModel {
            method,
            uri,
            version,
            fields: request::fields_of(lines),
        }),
{
    lemma_literals();
    let first = method + seq![' '] + uri + seq![' '] + version;
    let all = seq![first] + lines;
    let nothing = Seq::<char>::empty();
    assert(!facts::occurs(first, crlf::line_end())) by {
        if facts::occurs(first, crlf::line_end()) {
            let i = choose|i: int|
                0 <= i && i + 2 <= first.len() && #[trigger] first.subrange(i, i + 2)
                    == crlf::line_end();
            assert(first.subrange(i, i + 2)[0] == first[i]);
            lemma_no_return(method, uri, version, i);
        }
    }
    assert forall|i: int| 0 <= i < all.len() implies !facts::occurs(
        #[trigger] all[i],
        crlf::line_end(),
    ) && all[i].len() > 0 by {
        if i > 0 {
            assert(all[i] == lines[i - 1]);
            assert(crlf::fits_a_line(lines[i - 1]));
        }
    }
    assert(all.skip(1) =~= lines);
    assert(std_calls::lossy_text(head) =~= crlf::ended_lines(all) + crlf::line_end());
    crlf::head_is_split(all);
    crlf::full_lines_are_kept(all, 2);
    assert(seq![nothing, nothing] =~= Seq::new(2, |i: int| Seq::<char>::empty()));
    assert(request::head_lines(head) == all);
    assert(first =~= method + seq![' '] + (uri + seq![' '] + version));
    facts::words_come_one_by_one(method, ' ', uri + seq![' '] + version);
    facts::words_come_one_by_one(uri, ' ', version);
    facts::words_come_one_by_one(version, ' ', nothing);
    assert(class::words(first) =~= seq![method, uri, version]);
}

proof fn lemma_no_return(method: Seq<char>, uri: Seq<char>, version: Seq<char>, i: int)
    requires
        facts::no_white(method),
        facts::no_white(uri),
        facts::no_white(version),
        0 <= i < (method + seq![' '] + uri + seq![' '] + version).len(),
    ensures
        (method + seq![' '] + uri + seq![' '] + version)[i] != '\r',
{
    let s = method + seq![' '] + uri + seq![' '] + version;
    let a = method.len() as int;
    let b = uri.len() as int;
    if i < a {
        assert(s[i] == method[i]);
        assert(!facts::is_white(method[i]));
    } else if i == a {
        assert(s[i] == ' ');
    } else if i < a + 1 + b {
        assert(s[i] == uri[i - a - 1]);
        assert(!facts::is_white(uri[i - a - 1]));
    } else if i == a + 1 + b {
        assert(s[i] == ' ');
    } else {
        assert(s[i] == version[i - a - b - 2]);
        assert(!facts::is_white(version[i - a - b - 2]));
    }
}

/// The upstream service reads the client's own method and version, and the URI without the share
/// token, from the head that it is sent. Only a URI of which nothing is left without the token
/// cannot be read back.
pub proof fn upstream_reads_the_request(client: Seq<u8>, sent: Seq<u8>, port: u16)
    requires
        std_calls::lossy_text(sent) == guard::upstream_request(request::head_of(client), port),
        guard::upstream_uri(request::head_of(client).uri).len() > 0,
    ensures
        request::head_of(sent).method == request::head_of(client).method,
        request::head_of(sent).version == request::head_of(client).version,
        request::head_of(sent).uri == guard::upstream_uri(request::head_of(client).uri),
{
    let head = request::head_of(client);
    let uri = guard::upstream_uri(head.uri);
    request_line_is_made_of_words(client);
    lemma_upstream_uri_no_white(head.uri);
    let lines = upstream_is_sent_the_request(head, port);
    let first = head.method + seq![' '] + uri + seq![' '] + head.version;
    let rest = crlf::ended_lines(lines) + crlf::line_end();
    let nothing = Seq::<char>::empty();
    lemma_literals();
    assert(!facts::occurs(first, crlf::line_end())) by {
        if facts::occurs(first, crlf::line_end()) {
            let i = choose|i: int|
                0 <= i && i + 2 <= first.len() && #[trigger] first.subrange(i, i + 2)
                    == crlf::line_end();
            assert(first.subrange(i, i + 2)[0] == first[i]);
            lemma_no_return(head.method, uri, head.version, i);
        }
    }
    assert(std_calls::lossy_text(sent) =~= first + crlf::line_end() + rest);
    crlf::line_is_split_off(first, rest);
    let pieces = search::split_at_all(std_calls::lossy_text(sent), crlf::line_end());
    assert(pieces[0] == first);
    assert(class::non_empty(pieces)[0] == first);
    assert(first =~= head.method + seq![' '] + (uri + seq![' '] + head.version));
    facts::words_come_one_by_one(head.method, ' ', uri + seq![' '] + head.version);
    facts::words_come_one_by_one(uri, ' ', head.version);
    facts::words_come_one_by_one(head.version, ' ', nothing);
    assert(class::words(first) =~= seq![head.method, uri, head.version]);
}

/// Whether a query pair carries the share token: it is the token's name, alone or with an equals
/// sign and a value behind it.
pub open spec fn carries_token(pair: Seq<char>) -> bool {
    pair == "ltg_token"@ || search::begins(pair, "ltg_token="@)
}

/// Whether a query pair is passed on: it is not empty and carries no share token.
pub open spec fn is_passed_on(pair: Seq<char>) -> bool {
    pair.len() > 0 && !carries_token(pair)
}

proof fn lemma_carries(pair: Seq<char>)
    ensures
        tokens::is_token_pair(pair) <==> carries_token(pair),
        pair == "ltg_token"@ ==> tokens::pair_value(pair) == Seq::<char>::empty(),
        search::begins(pair, "ltg_token="@) ==> tokens::pair_value(pair) == pair.skip(10),
{
    reveal_strlit("ltg_token");
    reveal_strlit("ltg_token=");
    let name = "ltg_token"@;
    assert("ltg_token="@ =~= name + seq!['=']);
    let k = CharClass::Char('=');
    class::lemma_class_index(pair, k);
    let i = class::class_index(pair, k);
    if search::begins(pair, "ltg_token="@) {
        let rest = pair.skip(10);
        assert(pair =~= pair.take(10) + rest);
        assert(pair =~= name + seq!['='] + rest);
        laws::split_once_parts(name, '=', rest);
    }
    if pair == name {
        laws::split_whole(pair, '=');
    }
    if tokens::is_token_pair(pair) && i < pair.len() {
        assert(pair.take(i) == name);
        assert(i == 9);
        assert(pair[9] == '=');
        assert(pair.take(10) =~= name + seq!['=']);
    }
    if tokens::is_token_pair(pair) && i >= pair.len() {
        assert(pair == name);
    }
}

proof fn lemma_kept_push(pairs: Seq<Seq<char>>, pair: Seq<char>)
    ensures
        tokens::kept_pairs(pairs.push(pair)) == if is_passed_on(pair) {
            tokens::kept_pairs(pairs).push(pair)
        } else {
            tokens::kept_pairs(pairs)
        },
    decreases pairs.len(),
{
    lemma_carries(pair);
    let all = pairs.push(pair);
    if pairs.len() > 0 {
        lemma_kept_push(pairs.skip(1), pair);
        assert(all.skip(1) =~= pairs.skip(1).push(pair));
        assert(all[0] == pairs[0]);
        assert(tokens::kept_pairs(all) =~= if is_passed_on(pair) {
            tokens::kept_pairs(pairs).push(pair)
        } else {
            tokens::kept_pairs(pairs)
        });
    } else {
        assert(all.skip(1) =~= Seq::<Seq<char>>::empty());
        assert(tokens::kept_pairs(all.skip(1)) =~= Seq::<Seq<char>>::empty());
        assert(tokens::kept_pairs(all) =~= if is_passed_on(pair) {
            tokens::kept_pairs(pairs).push(pair)
        } else {
            tokens::kept_pairs(pairs)
        });
    }
}

proof fn lemma_kept_is_filter(pairs: Seq<Seq<char>>)
    ensures
        tokens::kept_pairs(pairs) == pairs.filter(|p: Seq<char>| is_passed_on(p)),
    decreases pairs.len(),
{
    let f = |p: Seq<char>| is_passed_on(p);
    reveal(Seq::filter);
    if pairs.len() > 0 {
        lemma_kept_is_filter(pairs.drop_last());
        lemma_kept_push(pairs.drop_last(), pairs.last());
        assert(pairs =~= pairs.drop_last().push(pairs.last()));
    } else {
        assert(pairs.filter(f) =~= Seq::<Seq<char>>::empty());
    }
}

/// A URI is its path and its query, parted at the first question mark.
pub proof fn uris_are_paths_and_queries(path: Seq<char>, query: Seq<char>)
    requires
        laws::lacks(path, '?'),
    ensures
        tokens::uri_parts(path + seq!['?'] + query) == (path, query),
        tokens::uri_parts(path) == (path, Seq::<char>::empty()),
{
    laws::split_once_parts(path, '?', query);
    laws::split_whole(path, '?');
}

/// The upstream service sees the client's path and, in their order, all of the query pairs that are
/// not empty and carry no share token; a question mark only if there are any.
pub proof fn other_pairs_are_passed_on(path: Seq<char>, pairs: Seq<Seq<char>>)
    requires
        laws::lacks(path, '?'),
        pairs.len() > 0,
        forall|i: int| 0 <= i < pairs.len() ==> laws::lacks(#[trigger] pairs[i], '&'),
    ensures
        ({
            let kept = pairs.filter(|p: Seq<char>| is_passed_on(p));
            guard::upstream_uri(path + seq!['?'] + search::joined(pairs, seq!['&']))
                == if kept.len() == 0 {
                path
            } else {
                path + seq!['?'] + search::joined(kept, seq!['&'])
            }
        }),
        guard::upstream_uri(path) == path,
{
    reveal_strlit("&");
    reveal_strlit("?");
    assert("&"@ =~= seq!['&']);
    assert("?"@ =~= seq!['?']);
    let query = search::joined(pairs, seq!['&']);
    uris_are_paths_and_queries(path, query);
    laws::split_undoes_join(pairs, '&');
    lemma_kept_is_filter(pairs);
    let kept = tokens::kept_pairs(pairs);
    if kept.len() > 0 {
        lemma_kept_not_empty(pairs);
        lemma_joined_not_empty(kept);
    }
    let none = Seq::<char>::empty();
    laws::split_whole(none, '&');
    let one = class::split(none, CharClass::Char('&'));
    assert(one.skip(1) =~= Seq::<Seq<char>>::empty());
    reveal_with_fuel(tokens::kept_pairs, 2);
    assert(tokens::kept_pairs(one) =~= Seq::<Seq<char>>::empty());
}

proof fn lemma_kept_not_empty(pairs: Seq<Seq<char>>)
    ensures
        forall|i: int|
            0 <= i < tokens::kept_pairs(pairs).len() ==> (#[trigger] tokens::kept_pairs(
                pairs,
            )[i]).len() > 0,
    decreases pairs.len(),
{
    if pairs.len() > 0 {
        lemma_kept_not_empty(pairs.skip(1));
        let kept = tokens::kept_pairs(pairs);
        let rest = tokens::kept_pairs(pairs.skip(1));
        assert forall|i: int| 0 <= i < kept.len() implies (#[trigger] kept[i]).len() > 0 by {
            if kept == rest {
                assert(kept[i] == rest[i]);
            } else if i > 0 {
                assert(kept[i] == rest[i - 1]);
            }
        }
    }
}

proof fn lemma_joined_not_empty(pieces: Seq<Seq<char>>)
    requires
        pieces.len() > 0,
        pieces[0].len() > 0,
    ensures
        search::joined(pieces, seq!['&']).len() > 0,
{
}

/// The share token of a query is the value of the last pair that carries one; where no pair does,
/// there is none.
pub proof fn last_token_of_a_query_counts(pairs: Seq<Seq<char>>, at: int)
    requires
        pairs.len() > 0,
        forall|i: int| 0 <= i < pairs.len() ==> laws::lacks(#[trigger] pairs[i], '&'),
    ensures
        ({
            let token = tokens::query_token(search::joined(pairs, seq!['&']));
            &&& (forall|i: int| 0 <= i < pairs.len() ==> !carries_token(#[trigger] pairs[i]))
                ==> token is None
            &&& 0 <= at < pairs.len() && carries_token(pairs[at]) && (forall|i: int|
                at < i < pairs.len() ==> !carries_token(#[trigger] pairs[i])) ==> token == Some(
                if pairs[at] == "ltg_token"@ {
                    Seq::<char>::empty()
                } else {
                    pairs[at].skip(10)
                },
            )
        }),
{
    laws::split_undoes_join(pairs, '&');
    lemma_pairs_token(pairs, at);
}

proof fn lemma_pairs_token(pairs: Seq<Seq<char>>, at: int)
    ensures
        (forall|i: int| 0 <= i < pairs.len() ==> !carries_token(#[trigger] pairs[i]))
            ==> tokens::pairs_token(pairs) is None,
        0 <= at < pairs.len() && carries_token(pairs[at]) && (forall|i: int|
            at < i < pairs.len() ==> !carries_token(#[trigger] pairs[i])) ==> tokens::pairs_token(
            pairs,
        ) == Some(
            if pairs[at] == "ltg_token"@ {
                Seq::<char>::empty()
            } else {
                pairs[at].skip(10)
            },
        ),
    decreases pairs.len(),
{
    if pairs.len() > 0 {
        let front = pairs.drop_last();
        let n = pairs.len() - 1;
        lemma_carries(pairs[n]);
        lemma_pairs_token(front, at);
        assert(forall|i: int| 0 <= i < n ==> #[trigger] pairs[i] == front[i]);
        assert(forall|i: int| 0 <= i < n ==> #[trigger] front[i] == pairs[i]);
    }
}

/// A referring page carries the token that its query carries; a fragment behind the query does not
/// belong to it, and a page without a query carries none.
pub proof fn referring_pages_carry_a_token(
    page: Seq<char>,
    query: Seq<char>,
    fragment: Seq<char>,
)
    requires
        laws::lacks(page, '?'),
        laws::lacks(query, '#'),
    ensures
        tokens::referer_token(page) is None,
        tokens::referer_token(page + seq!['?'] + query) == tokens::query_token(query),
        tokens::referer_token(page + seq!['?'] + query + seq!['#'] + fragment)
            == tokens::query_token(query),
{
    let tail = query + seq!['#'] + fragment;
    laws::split_whole(page, '?');
    laws::split_once_parts(page, '?', query);
    laws::split_once_parts(page, '?', tail);
    laws::split_whole(query, '#');
    assert(page + seq!['?'] + query + seq!['#'] + fragment =~= page + seq!['?'] + tail);
    laws::split_once_parts(query, '#', fragment);
    assert(tail.take(query.len() as int) =~= query);
    assert(class::split(tail, CharClass::Char('#'))[0] == query);
}

proof fn lemma_upstream_uri_no_white(uri: Seq<char>)
    requires
        facts::no_white(uri),
    ensures
        facts::no_white(guard::upstream_uri(uri)),
{
    reveal_strlit("&");
    reveal_strlit("?");
    assert("&"@ =~= seq!['&']);
    assert("?"@ =~= seq!['?']);
    let k = CharClass::Char('?');
    class::lemma_class_index(uri, k);
    let (path, query) = tokens::uri_parts(uri);
    let at = class::class_index(uri, k);
    assert forall|i: int| 0 <= i < path.len() implies !facts::is_white(#[trigger] path[i]) by {
        assert(path[i] == uri[i]);
    }
    assert forall|i: int| 0 <= i < query.len() implies !facts::is_white(#[trigger] query[i]) by {
        assert(query[i] == uri[at + 1 + i]);
    }
    let pairs = class::split(query, CharClass::Char('&'));
    lemma_pieces_no_white(query);
    lemma_kept_no_white(pairs);
    let kept = tokens::query_without_token(query);
    lemma_joined_no_white(tokens::kept_pairs(pairs));
    let whole = guard::upstream_uri(uri);
    assert forall|i: int| 0 <= i < whole.len() implies !facts::is_white(#[trigger] whole[i]) by {
        if kept.len() > 0 && i > path.len() {
            assert(whole[i] == kept[i - path.len() - 1]);
        } else if i < path.len() {
            assert(whole[i] == path[i]);
        }
    }
}

proof fn lemma_pieces_no_white(s: Seq<char>)
    requires
        facts::no_white(s),
    ensures
        forall|i: int|
            0 <= i < class::split(s, CharClass::Char('&')).len() ==> facts::no_white(
                #[trigger] class::split(s, CharClass::Char('&'))[i],
            ),
    decreases s.len(),
{
    let k = CharClass::Char('&');
    class::lemma_class_index(s, k);
    let at = class::class_index(s, k);
    if at < s.len() {
        let first = s.take(at);
        let rest = s.skip(at + 1);
        assert forall|i: int| 0 <= i < first.len() implies !facts::is_white(#[trigger] first[i]) by {
            assert(first[i] == s[i]);
        }
        assert forall|i: int| 0 <= i < rest.len() implies !facts::is_white(#[trigger] rest[i]) by {
            assert(rest[i] == s[at + 1 + i]);
        }
        lemma_pieces_no_white(rest);
        let pieces = class::split(s, k);
        assert forall|i: int| 0 <= i < pieces.len() implies facts::no_white(#[trigger] pieces[i]) by {
            if i > 0 {
                assert(pieces[i] == class::split(rest, k)[i - 1]);
            }
        }
    }
}

proof fn lemma_kept_no_white(pairs: Seq<Seq<char>>)
    requires
        forall|i: int| 0 <= i < pairs.len() ==> facts::no_white(#[trigger] pairs[i]),
    ensures
        forall|i: int|
            0 <= i < tokens::kept_pairs(pairs).len() ==> facts::no_white(
                #[trigger] tokens::kept_pairs(pairs)[i],
            ),
    decreases pairs.len(),
{
    if pairs.len() > 0 {
        let rest = pairs.skip(1);
        assert forall|i: int| 0 <= i < rest.len() implies facts::no_white(#[trigger] rest[i]) by {
            assert(rest[i] == pairs[i + 1]);
        }
        lemma_kept_no_white(rest);
        let kept = tokens::kept_pairs(pairs);
        let tail = tokens::kept_pairs(rest);
        assert forall|i: int| 0 <= i < kept.len() implies facts::no_white(#[trigger] kept[i]) by {
            if kept == tail {
                assert(kept[i] == tail[i]);
            } else if i > 0 {
                assert(kept[i] == tail[i - 1]);
            } else {
                assert(facts::no_white(pairs[0]));
            }
        }
    }
}

proof fn lemma_joined_no_white(pieces: Seq<Seq<char>>)
    requires
        forall|i: int| 0 <= i < pieces.len() ==> facts::no_white(#[trigger] pieces[i]),
    ensures
        facts::no_white(search::joined(pieces, seq!['&'])),
    decreases pieces.len(),
{
    if pieces.len() == 1 {
        assert(facts::no_white(pieces[0]));
    } else if pieces.len() > 1 {
        let rest = pieces.skip(1);
        assert forall|i: int| 0 <= i < rest.len() implies facts::no_white(#[trigger] rest[i]) by {
            assert(rest[i] == pieces[i + 1]);
        }
        lemma_joined_no_white(rest);
        assert(facts::no_white(pieces[0]));
        let tail = search::joined(rest, seq!['&']);
        let s = search::joined(pieces, seq!['&']);
        let n = pieces[0].len() as int;
        assert forall|i: int| 0 <= i < s.len() implies !facts::is_white(#[trigger] s[i]) by {
            if i < n {
                assert(s[i] == pieces[0][i]);
            } else if i > n {
                assert(s[i] == tail[i - n - 1]);
            }
        }
    }
}

/// A header line, with white space around its name and its value: the share token's own header is
/// noted and not passed on; every other header is passed on, behind those before it, and nothing
/// changes besides but what a length, a user agent, a cookie or a referring page tells.
pub proof fn header_lines_are_noted(
    lines: Seq<Seq<char>>,
    name: Seq<char>,
    value: Seq<char>,
    a: Seq<char>,
    b: Seq<char>,
    c: Seq<char>,
    d: Seq<char>,
)
    requires
        laws::lacks(name, ':'),
        facts::clean_ends(name),
        facts::clean_ends(value),
        facts::all_white(a) && facts::all_white(b) && facts::all_white(c) && facts::all_white(d),
    ensures
        ({
            let seen = request::fields_of(lines);
            let now = request::fields_of(
                lines.push((a + name + b) + seq![':'] + (c + value + d)),
            );
            let lower = std_calls::lowercase(name);
            &&& lower == "x-ltg-token"@ ==> now == (HeaderModel {
                header_token: Some(value),
                ..seen
            })
            &&& lower != "x-ltg-token"@ ==> now.headers == seen.headers.push((name, value))
                && now.header_token == seen.header_token
            &&& now.content_length == if lower == "content-length"@ {
                match number::decimal_value(value) {
                    Some(n) => if n <= usize::MAX {
                        n
                    } else {
                        0
                    },
                    None => 0,
                }
            } else {
                seen.content_length
            }
            &&& now.user_agent == if lower == "user-agent"@ {
                Some(value)
            } else {
                seen.user_agent
            }
            &&& now.cookie_token == if lower == "cookie"@ {
                tokens::cookie(value, "ltg_auth"@)
            } else {
                seen.cookie_token
            }
            &&& now.referer_token == if lower == "referer"@ {
                tokens::referer_token(value)
            } else {
                seen.referer_token
            }
        }),
{
    let left = a + name + b;
    let right = c + value + d;
    let line = left + seq![':'] + right;
    assert(laws::lacks(left, ':')) by {
        assert forall|i: int| 0 <= i < left.len() implies #[trigger] left[i] != ':' by {
            if i < a.len() {
                assert(left[i] == a[i]);
                assert(facts::is_white(a[i]));
            } else if i < a.len() + name.len() {
                assert(left[i] == name[i - a.len()]);
            } else {
                assert(left[i] == b[i - a.len() - name.len()]);
                assert(facts::is_white(b[i - a.len() - name.len()]));
            }
        }
    }
    laws::split_once_parts(left, ':', right);
    facts::trimming_takes_white_space_off(a, name, b);
    facts::trimming_takes_white_space_off(c, value, d);
    assert(lines.push(line).drop_last() =~= lines);
    lemma_names_differ();
}

proof fn lemma_names_differ()
    ensures
        "content-length"@ != "user-agent"@,
        "content-length"@ != "x-ltg-token"@,
        "content-length"@ != "cookie"@,
        "content-length"@ != "referer"@,
        "user-agent"@ != "x-ltg-token"@,
        "user-agent"@ != "cookie"@,
        "user-agent"@ != "referer"@,
        "x-ltg-token"@ != "cookie"@,
        "x-ltg-token"@ != "referer"@,
        "cookie"@ != "referer"@,
{
    reveal_strlit("content-length");
    reveal_strlit("user-agent");
    reveal_strlit("x-ltg-token");
    reveal_strlit("cookie");
    reveal_strlit("referer");
    assert("content-length"@.len() == 14);
    assert("user-agent"@.len() == 10);
    assert("x-ltg-token"@.len() == 11);
    assert("cookie"@.len() == 6);
    assert("referer"@.len() == 7);
}

/// A line without a colon is no header and changes nothing, and before the first line nothing is
/// known.
pub proof fn other_lines_say_nothing(lines: Seq<Seq<char>>, line: Seq<char>)
    requires
        laws::lacks(line, ':'),
    ensures
        request::fields_of(lines.push(line)) == request::fields_of(lines),
        request::fields_of(seq![]) == (HeaderModel {
            headers: seq![],
            content_length: 0,
            user_agent: None,
            header_token: None,
            cookie_token: None,
            referer_token: None,
        }),
{
    laws::split_whole(line, ':');
    assert(lines.push(line).drop_last() =~= lines);
}

/// Whether an entry of a `Cookie` header has an equals sign in it.
pub open spec fn has_equals_sign(entry: Seq<char>) -> bool {
    !laws::lacks(entry, '=')
}

proof fn lemma_trimmed_equals(entry: Seq<char>)
    ensures
        has_equals_sign(entry) <==> has_equals_sign(class::trimmed(entry)),
{
    facts::trimming_leaves_clean_ends(entry);
    let t = class::trimmed(entry);
    let (a, b) = choose|a: Seq<char>, b: Seq<char>|
        facts::all_white(a) && facts::all_white(b) && entry == #[trigger] (a + t + b);
    if has_equals_sign(entry) {
        let i = choose|i: int| 0 <= i < entry.len() && #[trigger] entry[i] == '=';
        if i < a.len() {
            assert(entry[i] == a[i]);
            assert(facts::is_white(a[i]));
        } else if i < a.len() + t.len() {
            assert(entry[i] == t[i - a.len()]);
        } else {
            assert(entry[i] == b[i - a.len() - t.len()]);
            assert(facts::is_white(b[i - a.len() - t.len()]));
        }
    }
    if has_equals_sign(t) {
        let i = choose|i: int| 0 <= i < t.len() && #[trigger] t[i] == '=';
        assert(entry[a.len() + i] == t[i]);
    }
}

/// A cookie is the first entry of its name, without the white space around its name and its value.
/// An entry without an equals sign ends the search: what stands behind it is not seen.
pub proof fn first_cookie_of_a_name_counts(
    cookies: Seq<Seq<char>>,
    at: int,
    name: Seq<char>,
    value: Seq<char>,
    w: Seq<Seq<char>>,
)
    requires
        0 <= at < cookies.len(),
        forall|i: int| 0 <= i < cookies.len() ==> laws::lacks(#[trigger] cookies[i], ';'),
        forall|i: int|
            0 <= i < at ==> proxy::laws::is_other_cookie(#[trigger] cookies[i], name),
        w.len() == 4,
        forall|i: int| 0 <= i < 4 ==> facts::all_white(#[trigger] w[i]),
        facts::clean_ends(name),
        laws::lacks(name, '='),
        name.len() > 0,
        facts::clean_ends(value),
    ensures
        cookies[at] == w[0] + name + w[1] + seq!['='] + w[2] + value + w[3] ==> tokens::cookie(
            search::joined(cookies, seq![';']),
            name,
        ) == Some(value),
        !has_equals_sign(cookies[at]) ==> tokens::cookie(
            search::joined(cookies, seq![';']),
            name,
        ) is None,
{
    laws::split_undoes_join(cookies, ';');
    if !has_equals_sign(cookies[at]) {
        lemma_trimmed_equals(cookies[at]);
        laws::split_whole(class::trimmed(cookies[at]), '=');
    }
    lemma_cookie_reached(cookies, at, name);
    if cookies[at] == w[0] + name + w[1] + seq!['='] + w[2] + value + w[3] {
        lemma_cookie_entry(cookies[at], name, value, w);
    }
}

/// The search for a cookie comes to an entry if all before it are cookies of other names.
proof fn lemma_cookie_reached(cookies: Seq<Seq<char>>, at: int, name: Seq<char>)
    requires
        0 <= at < cookies.len(),
        forall|i: int|
            0 <= i < at ==> proxy::laws::is_other_cookie(#[trigger] cookies[i], name),
    ensures
        tokens::cookie_among(cookies, name) == tokens::cookie_among(cookies.skip(at), name),
    decreases at,
{
    if at > 0 {
        let rest = cookies.skip(1);
        assert(proxy::laws::is_other_cookie(cookies[0], name));
        assert forall|i: int| 0 <= i < at - 1 implies proxy::laws::is_other_cookie(
            #[trigger] rest[i],
            name,
        ) by {
            assert(rest[i] == cookies[i + 1]);
        }
        lemma_cookie_reached(rest, at - 1, name);
        assert(rest.skip(at - 1) =~= cookies.skip(at));
    } else {
        assert(cookies.skip(0) =~= cookies);
    }
}

proof fn lemma_cookie_entry(
    entry: Seq<char>,
    name: Seq<char>,
    value: Seq<char>,
    w: Seq<Seq<char>>,
)
    requires
        w.len() == 4,
        forall|i: int| 0 <= i < 4 ==> facts::all_white(#[trigger] w[i]),
        facts::clean_ends(name),
        laws::lacks(name, '='),
        name.len() > 0,
        facts::clean_ends(value),
        entry == w[0] + name + w[1] + seq!['='] + w[2] + value + w[3],
    ensures
        class::split_once(class::trimmed(entry), CharClass::Char('=')) matches Some((n, v))
            && class::trimmed(n) == name && class::trimmed(v) == value,
{
    let nothing = Seq::<char>::empty();
    assert(facts::all_white(w[0]) && facts::all_white(w[1]) && facts::all_white(w[2])
        && facts::all_white(w[3]));
    let left = name + w[1];
    let right = if value.len() > 0 {
        w[2] + value
    } else {
        nothing
    };
    let core = left + seq!['='] + right;
    let tail = if value.len() > 0 {
        w[3]
    } else {
        w[2] + w[3]
    };
    if value.len() == 0 {
        assert(value =~= nothing);
        assert forall|i: int| 0 <= i < tail.len() implies facts::is_white(#[trigger] tail[i]) by {
            if i < w[2].len() {
                assert(tail[i] == w[2][i]);
            } else {
                assert(tail[i] == w[3][i - w[2].len()]);
            }
        }
    }
    assert(entry =~= w[0] + core + tail);
    assert(core[0] == name[0]);
    if value.len() > 0 {
        assert(core[core.len() - 1] == value[value.len() - 1]);
    } else {
        assert(core[core.len() - 1] == '=');
    }
    facts::trimming_takes_white_space_off(w[0], core, tail);
    assert(laws::lacks(left, '=')) by {
        assert forall|i: int| 0 <= i < left.len() implies #[trigger] left[i] != '=' by {
            if i < name.len() {
                assert(left[i] == name[i]);
            } else {
                assert(left[i] == w[1][i - name.len()]);
                assert(facts::is_white(w[1][i - name.len()]));
            }
        }
    }
    laws::split_once_parts(left, '=', right);
    facts::trimming_takes_white_space_off(nothing, name, w[1]);
    assert(nothing + name + w[1] =~= left);
    if value.len() > 0 {
        facts::trimming_takes_white_space_off(w[2], value, nothing);
        assert(w[2] + value + nothing =~= right);
    } else {
        facts::trimming_takes_white_space_off(nothing, nothing, nothing);
        assert(nothing + nothing + nothing =~= right);
    }
}

/// What is missing of a request line is filled in: the root for the URI, and version 1.1.
pub proof fn missing_words_are_filled_in(head: Seq<u8>, method: Seq<char>, uri: Seq<char>, rest: Seq<char>)
    requires
        facts::no_white(method) && method.len() > 0,
        facts::no_white(uri) && uri.len() > 0,
    ensures
        std_calls::lossy_text(head) == method + crlf::line_end() + rest ==> {
            let h = request::head_of(head);
            h.method == method && h.uri == seq!['/'] && h.version == "HTTP/1.1"@
        },
        std_calls::lossy_text(head) == method + seq![' '] + uri + crlf::line_end() + rest ==> {
            let h = request::head_of(head);
            h.method == method && h.uri == uri && h.version == "HTTP/1.1"@
        },
{
    lemma_literals();
    reveal_strlit("/");
    assert("/"@ =~= seq!['/']);
    let nothing = Seq::<char>::empty();
    crlf::no_white_space_no_line_end(method);
    crlf::line_is_split_off(method, rest);
    let both = method + seq![' '] + uri;
    assert(!facts::occurs(both, crlf::line_end())) by {
        if facts::occurs(both, crlf::line_end()) {
            let i = choose|i: int|
                0 <= i && i + 2 <= both.len() && #[trigger] both.subrange(i, i + 2)
                    == crlf::line_end();
            assert(both.subrange(i, i + 2)[0] == both[i]);
            if i < method.len() {
                assert(both[i] == method[i]);
                assert(!facts::is_white(method[i]));
            } else if i > method.len() {
                assert(both[i] == uri[i - method.len() - 1]);
                assert(!facts::is_white(uri[i - method.len() - 1]));
            }
        }
    }
    crlf::line_is_split_off(both, rest);
    facts::words_come_one_by_one(method, ' ', uri);
    facts::words_come_one_by_one(uri, ' ', nothing);
    facts::words_come_one_by_one(method, ' ', nothing);
    if std_calls::lossy_text(head) == method + crlf::line_end() + rest {
        let pieces = search::split_at_all(std_calls::lossy_text(head), crlf::line_end());
        assert(pieces[0] == method);
        assert(request::head_lines(head)[0] == method);
    }
    if std_calls::lossy_text(head) == both + crlf::line_end() + rest {
        let pieces = search::split_at_all(std_calls::lossy_text(head), crlf::line_end());
        assert(pieces[0] == both);
        assert(request::head_lines(head)[0] == both);
        assert(class::words(both) =~= seq![method, uri]);
    }
}

} // verus!

//! What the guard and the relay keep, whatever the client and the upstream service send.
use crate::proxy::bytes;
use crate::proxy::guard;
use crate::proxy::guard::{ClientEventModel, GuardModel, IntakeModel, IntakeStepModel};
use crate::proxy::relay;
use crate::proxy::relay::{ChunkFrame, RelayModel, RelayStepModel, UpstreamEventModel};
use crate::proxy::request;
use crate::proxy::request::HeadModel;
use crate::proxy::response;
use crate::proxy::tokens;
use crate::routes;
use crate::text::class;
use crate::text::class::CharClass;
use crate::text::laws;
use crate::text::search;
use crate::text::std_calls;
use vstd::prelude::*;

verus! {

/// A share that has run out forwards no request whose head comes then: once the head is
/// complete, the answer is 410.
pub proof fn expired_share_forwards_nothing(
    buffer: Seq<u8>,
    event: ClientEventModel,
    now: u64,
    share: GuardModel,
)
    requires
        guard::is_expired(now, share.expires_at),
    ensures
        !(guard::next_step(IntakeModel::Head(buffer), event, now, share) is Forward),
        event matches ClientEventModel::Bytes(b) && bytes::header_end(buffer + b) is Some ==> (
        guard::next_step(IntakeModel::Head(buffer), event, now, share) matches IntakeStepModel::Reject(
            r,
        ) && r.status == 410),
{
}

/// In token mode a request is forwarded only if it presents the share token; a request that does
/// not, and that some route answers for, is answered 401.
pub proof fn token_is_enforced(head: HeadModel, share: GuardModel)
    requires
        guard::asks_for_token(share),
    ensures
        guard::decision(head, share) is Ok ==> guard::presented_token(head) == Some(
            guard::expected_token(share),
        ),
        guard::presented_token(head) != Some(guard::expected_token(share))
            && routes::best_route(tokens::uri_parts(head.uri).0, share.routes) is Some ==> (
        guard::decision(head, share) matches Err(e) && e.status == 401),
{
}

/// A request is forwarded exactly if a route answers for it and the guard admits it, and then to
/// the port of the longest such route.
pub proof fn forwarded_exactly_if_routed_and_admitted(head: HeadModel, share: GuardModel)
    ensures
        guard::decision(head, share) is Ok <==> guard::is_admitted(head, share)
            && routes::best_route(tokens::uri_parts(head.uri).0, share.routes) is Some,
        guard::decision(head, share) matches Ok(f) ==> f.upstream_port == share.routes[
            routes::best_route(tokens::uri_parts(head.uri).0, share.routes)->0
        ].1,
{
}

/// The head that a request has by the time an event has been taken in, if it is complete.
pub open spec fn head_by(intake: IntakeModel, event: ClientEventModel) -> Option<HeadModel> {
    match (intake, event) {
        (IntakeModel::Body(head, _), _) => Some(head),
        (IntakeModel::Head(buffer), ClientEventModel::Bytes(b)) => match bytes::header_end(
            buffer + b,
        ) {
            Some(end) => Some(request::head_of((buffer + b).take(end))),
            None => None,
        },
        _ => None,
    }
}

/// However a request comes in, it is forwarded only once its head is complete, if the guard admits
/// that head and a route answers for it, and not if the share had run out when the head came.
pub proof fn nothing_is_forwarded_unguarded(
    intake: IntakeModel,
    event: ClientEventModel,
    now: u64,
    share: GuardModel,
)
    ensures
        guard::next_step(intake, event, now, share) matches IntakeStepModel::Forward(f, _) ==> {
            &&& head_by(intake, event) matches Some(head) && guard::is_admitted(head, share)
                && guard::decision(head, share) == Ok::<
                guard::ForwardModel,
                guard::RejectionModel,
            >(f)
            &&& intake is Head ==> !guard::is_expired(now, share.expires_at)
        },
{
}

/// What a request has come to after the events of its reading, each with the time at which it was
/// taken in. Once it is settled, nothing more is read.
pub open spec fn intake_after(events: Seq<(ClientEventModel, u64)>, share: GuardModel) -> IntakeStepModel
    decreases events.len(),
{
    if events.len() == 0 {
        IntakeStepModel::Read(IntakeModel::Head(seq![]))
    } else {
        match intake_after(events.drop_last(), share) {
            IntakeStepModel::Read(intake) => guard::next_step(
                intake,
                events.last().0,
                events.last().1,
                share,
            ),
            settled => settled,
        }
    }
}

/// Whether the head of a request was completed by the event at `i`, before the share had run out.
pub open spec fn head_came_in_time(
    events: Seq<(ClientEventModel, u64)>,
    share: GuardModel,
    i: int,
    head: HeadModel,
) -> bool {
    &&& 0 <= i < events.len()
    &&& intake_after(events.take(i), share) matches IntakeStepModel::Read(intake)
        && intake is Head && head_by(intake, events[i].0) == Some(head)
    &&& !guard::is_expired(events[i].1, share.expires_at)
}

/// The event that completed a head stays so when more events follow.
proof fn lemma_head_came(
    events: Seq<(ClientEventModel, u64)>,
    share: GuardModel,
    i: int,
    head: HeadModel,
)
    requires
        events.len() > 0,
        head_came_in_time(events.drop_last(), share, i, head),
    ensures
        head_came_in_time(events, share, i, head),
{
    assert(events.drop_last().take(i) =~= events.take(i));
    assert(events.drop_last()[i] == events[i]);
}

/// The body of a request is read only after its head came in time.
proof fn lemma_body_follows_head(events: Seq<(ClientEventModel, u64)>, share: GuardModel)
    ensures
        intake_after(events, share) matches IntakeStepModel::Read(IntakeModel::Body(head, _))
            ==> exists|i: int| head_came_in_time(events, share, i, head),
    decreases events.len(),
{
    if events.len() > 0 {
        let front = events.drop_last();
        let n = events.len() - 1;
        lemma_body_follows_head(front, share);
        if let IntakeStepModel::Read(IntakeModel::Body(head, _)) = intake_after(events, share) {
            match intake_after(front, share) {
                IntakeStepModel::Read(IntakeModel::Body(earlier, _)) => {
                    let i = choose|i: int| head_came_in_time(front, share, i, earlier);
                    lemma_head_came(events, share, i, earlier);
                    assert(head_came_in_time(events, share, i, head));
                },
                _ => {
                    assert(events.take(n) =~= front);
                    assert(head_came_in_time(events, share, n, head));
                },
            }
        }
    }
}

/// Over the whole reading of a request: it is forwarded only if its head came before the share had
/// run out, the guard admits that head and a route answers for it; what is forwarded is what the
/// guard has decided on that head.
pub proof fn forwarded_head_came_in_time(events: Seq<(ClientEventModel, u64)>, share: GuardModel)
    ensures
        intake_after(events, share) matches IntakeStepModel::Forward(f, _) ==> exists|
            i: int,
            head: HeadModel,
        | #[trigger]
            head_came_in_time(events, share, i, head) && guard::is_admitted(head, share)
                && guard::decision(head, share) == Ok::<
                guard::ForwardModel,
                guard::RejectionModel,
            >(f),
    decreases events.len(),
{
    if events.len() > 0 {
        let front = events.drop_last();
        let n = events.len() - 1;
        if let IntakeStepModel::Forward(f, _) = intake_after(events, share) {
            match intake_after(front, share) {
                IntakeStepModel::Read(IntakeModel::Body(head, _)) => {
                    lemma_body_follows_head(front, share);
                    let i = choose|i: int| head_came_in_time(front, share, i, head);
                    lemma_head_came(events, share, i, head);
                },
                IntakeStepModel::Read(intake) => {
                    assert(events.take(n) =~= front);
                    let head = head_by(intake, events[n].0)->0;
                    assert(head_came_in_time(events, share, n, head));
                },
                _ => {
                    forwarded_head_came_in_time(front, share);
                    let (i, head) = choose|i: int, head: HeadModel| #[trigger]
                        head_came_in_time(front, share, i, head) && guard::is_admitted(head, share)
                            && guard::decision(head, share) == Ok::<
                            guard::ForwardModel,
                            guard::RejectionModel,
                        >(f);
                    lemma_head_came(events, share, i, head);
                },
            }
        }
    }
}

/// The pairs that are kept carry no token and no separator.
proof fn lemma_kept_pairs(pairs: Seq<Seq<char>>)
    requires
        forall|i: int| 0 <= i < pairs.len() ==> laws::lacks(#[trigger] pairs[i], '&'),
    ensures
        forall|i: int|
            0 <= i < tokens::kept_pairs(pairs).len() ==> laws::lacks(
                #[trigger] tokens::kept_pairs(pairs)[i],
                '&',
            ) && tokens::kept_pairs(pairs)[i].len() > 0 && !tokens::is_token_pair(
                tokens::kept_pairs(pairs)[i],
            ),
    decreases pairs.len(),
{
    if pairs.len() > 0 {
        let rest = pairs.skip(1);
        assert forall|i: int| 0 <= i < rest.len() implies laws::lacks(#[trigger] rest[i], '&') by {
            assert(rest[i] == pairs[i + 1]);
        }
        lemma_kept_pairs(rest);
        let kept = tokens::kept_pairs(pairs);
        let kept_rest = tokens::kept_pairs(rest);
        assert forall|i: int| 0 <= i < kept.len() implies laws::lacks(#[trigger] kept[i], '&')
            && kept[i].len() > 0 && !tokens::is_token_pair(kept[i]) by {
            if kept == kept_rest {
                assert(kept[i] == kept_rest[i]);
            } else if i > 0 {
                assert(kept[i] == kept_rest[i - 1]);
            } else {
                assert(laws::lacks(pairs[0], '&'));
            }
        }
    }
}

proof fn lemma_nothing_to_strip(pairs: Seq<Seq<char>>)
    requires
        forall|i: int|
            0 <= i < pairs.len() ==> (#[trigger] pairs[i]).len() > 0 && !tokens::is_token_pair(
                pairs[i],
            ),
    ensures
        tokens::kept_pairs(pairs) == pairs,
        tokens::pairs_token(pairs) is None,
    decreases pairs.len(),
{
    if pairs.len() > 0 {
        let rest = pairs.skip(1);
        assert forall|i: int| 0 <= i < rest.len() implies (#[trigger] rest[i]).len() > 0
            && !tokens::is_token_pair(rest[i]) by {
            assert(rest[i] == pairs[i + 1]);
        }
        lemma_nothing_to_strip(rest);
        assert(seq![pairs[0]] + rest =~= pairs);
        assert(tokens::kept_pairs(pairs) == pairs);
        let front = pairs.drop_last();
        assert forall|i: int| 0 <= i < front.len() implies (#[trigger] front[i]).len() > 0
            && !tokens::is_token_pair(front[i]) by {
            assert(front[i] == pairs[i]);
        }
        lemma_nothing_to_strip(front);
        assert(pairs.last() == pairs[pairs.len() - 1]);
    }
}

/// A query that the token was taken out of carries no token, and taking it out again changes
/// nothing.
pub proof fn stripped_query_has_no_token(query: Seq<char>)
    ensures
        tokens::query_token(tokens::query_without_token(query)) is None,
        tokens::query_without_token(tokens::query_without_token(query))
            == tokens::query_without_token(query),
{
    reveal_strlit("&");
    assert("&"@ =~= seq!['&']);
    laws::join_undoes_split(query, '&');
    let pairs = class::split(query, CharClass::Char('&'));
    let kept = tokens::kept_pairs(pairs);
    let text = tokens::query_without_token(query);
    lemma_kept_pairs(pairs);
    lemma_nothing_to_strip(kept);
    if kept.len() == 0 {
        assert(text =~= Seq::<char>::empty());
        laws::split_whole(text, '&');
        let again = class::split(text, CharClass::Char('&'));
        assert(again.skip(1) =~= Seq::<Seq<char>>::empty());
        assert(again.drop_last() =~= Seq::<Seq<char>>::empty());
        reveal_with_fuel(tokens::kept_pairs, 2);
        reveal_with_fuel(tokens::pairs_token, 2);
        assert(tokens::kept_pairs(again) =~= Seq::<Seq<char>>::empty());
    } else {
        laws::split_undoes_join(kept, '&');
    }
}

/// The URI that the upstream service sees has the client's path and no share token.
pub proof fn upstream_uri_has_no_token(uri: Seq<char>)
    ensures
        tokens::uri_parts(guard::upstream_uri(uri)).0 == tokens::uri_parts(uri).0,
        tokens::query_token(tokens::uri_parts(guard::upstream_uri(uri)).1) is None,
{
    reveal_strlit("?");
    assert("?"@ =~= seq!['?']);
    let k = CharClass::Char('?');
    let (path, query) = tokens::uri_parts(uri);
    class::lemma_class_index(uri, k);
    assert(laws::lacks(path, '?')) by {
        let i = class::class_index(uri, k);
        assert forall|j: int| 0 <= j < path.len() implies #[trigger] path[j] != '?' by {
            assert(!k.has(uri[j]));
        }
    }
    stripped_query_has_no_token(query);
    let kept = tokens::query_without_token(query);
    if kept.len() == 0 {
        laws::split_whole(path, '?');
        assert(kept =~= Seq::<char>::empty());
    } else {
        laws::split_once_parts(path, '?', kept);
    }
}

/// The upstream service is sent the share token neither in the query of the URI nor in the token's
/// own header. A cookie or a referring page that carries it is passed on as it is.
pub proof fn query_and_header_token_stay_behind(head: Seq<u8>)
    ensures
        tokens::query_token(
            tokens::uri_parts(guard::upstream_uri(request::head_of(head).uri)).1,
        ) is None,
        forall|i: int|
            0 <= i < request::head_of(head).fields.headers.len() ==> std_calls::lowercase(
                (#[trigger] request::head_of(head).fields.headers[i]).0,
            ) != "x-ltg-token"@,
{
    upstream_uri_has_no_token(request::head_of(head).uri);
    request::token_header_is_not_passed_on(
        request::all_but_first(request::head_lines(head)),
    );
}

/// The search for a cookie passes over those of other names.
proof fn lemma_cookie_at(cookies: Seq<Seq<char>>, n: int, name: Seq<char>, value: Seq<char>)
    requires
        0 <= n < cookies.len(),
        forall|i: int| 0 <= i < n ==> is_other_cookie(#[trigger] cookies[i], name),
        class::split_once(class::trimmed(cookies[n]), CharClass::Char('=')) == Some((name, value)),
        class::trimmed(name) == name,
    ensures
        tokens::cookie_among(cookies, name) == Some(class::trimmed(value)),
    decreases n,
{
    if n > 0 {
        let rest = cookies.skip(1);
        assert(is_other_cookie(cookies[0], name));
        assert forall|i: int| 0 <= i < n - 1 implies is_other_cookie(#[trigger] rest[i], name) by {
            assert(rest[i] == cookies[i + 1]);
        }
        assert(rest[n - 1] == cookies[n]);
        lemma_cookie_at(rest, n - 1, name, value);
    }
}

/// Whether an entry of a `Cookie` header is a cookie of another name.
pub open spec fn is_other_cookie(entry: Seq<char>, name: Seq<char>) -> bool {
    class::split_once(class::trimmed(entry), CharClass::Char('=')) matches Some((n, _))
        && class::trimmed(n) != name
}

/// The cookie that the guard hands out is the one that it looks for: a client that returns it
/// presents the token, whatever cookies of other names stand around it and whatever white space
/// surrounds it. An entry without an equals sign in front of it hides it, and a token with a
/// semicolon in it, or with white space at an end, does not survive in a cookie.
pub proof fn cookie_presents_token(cookies: Seq<Seq<char>>, n: int, token: Seq<char>)
    requires
        0 <= n < cookies.len(),
        forall|i: int| 0 <= i < cookies.len() ==> laws::lacks(#[trigger] cookies[i], ';'),
        forall|i: int| 0 <= i < n ==> is_other_cookie(#[trigger] cookies[i], "ltg_auth"@),
        class::trimmed(cookies[n]) == "ltg_auth="@ + token,
        class::trimmed(token) == token,
    ensures
        tokens::cookie(search::joined(cookies, seq![';']), "ltg_auth"@) == Some(token),
{
    reveal_strlit("ltg_auth=");
    reveal_strlit("ltg_auth");
    laws::split_undoes_join(cookies, ';');
    assert("ltg_auth="@ + token =~= "ltg_auth"@ + seq!['='] + token);
    laws::split_once_parts("ltg_auth"@, '=', token);
    assert(class::trimmed("ltg_auth"@) == "ltg_auth"@) by {
        assert(class::trim_start("ltg_auth"@, CharClass::Space) == "ltg_auth"@);
    }
    lemma_cookie_at(cookies, n, "ltg_auth"@, token);
}

/// The guard's cookie, as it is handed out, is left alone by trimming, so that it can stand in a
/// `Cookie` header by itself.
pub proof fn cookie_stands_alone(token: Seq<char>)
    requires
        laws::lacks(token, ';'),
        class::trimmed(token) == token,
    ensures
        tokens::cookie("ltg_auth="@ + token, "ltg_auth"@) == Some(token),
{
    reveal_strlit("ltg_auth=");
    let s = "ltg_auth="@ + token;
    assert(s.skip(9) =~= token);
    laws::lemma_trim_untouched(s, token, CharClass::Space);
    assert forall|i: int| 0 <= i < s.len() implies #[trigger] s[i] != ';' by {
        if i >= 9 {
            assert(s[i] == token[i - 9]);
        }
    }
    cookie_presents_token(seq![s], 0, token);
    laws::split_whole(s, ';');
    laws::split_undoes_join(seq![s], ';');
}

/// A head may arrive in any number of pieces: as long as it is not complete, reading it in two
/// pieces comes to the same as reading it in one.
pub proof fn head_may_arrive_in_pieces(
    buffer: Seq<u8>,
    a: Seq<u8>,
    b: Seq<u8>,
    now: u64,
    share: GuardModel,
)
    requires
        bytes::header_end(buffer + a) is None,
    ensures
        guard::next_step(IntakeModel::Head(buffer), ClientEventModel::Bytes(a), now, share)
            == IntakeStepModel::Read(IntakeModel::Head(buffer + a)),
        guard::next_step(IntakeModel::Head(buffer + a), ClientEventModel::Bytes(b), now, share)
            == guard::next_step(
            IntakeModel::Head(buffer),
            ClientEventModel::Bytes(a + b),
            now,
            share,
        ),
{
    assert(buffer + a + b =~= buffer + (a + b));
}

/// A chunk that is complete, or that never can be, stays what it is whatever follows it.
proof fn lemma_first_chunk_stays(b: Seq<u8>, more: Seq<u8>)
    requires
        !(relay::first_chunk(b) is Partial),
    ensures
        relay::first_chunk(b + more) == relay::first_chunk(b),
{
    bytes::lemma_marker_stays(b, more, bytes::crlf());
    search::lemma_find(b, bytes::crlf());
    let end = search::find(b, bytes::crlf())->0;
    assert((b + more).take(end) =~= b.take(end));
}

/// A run of chunks lies within the bytes.
pub proof fn chunk_run_is_within(b: Seq<u8>)
    ensures
        relay::chunk_run(b).0 <= b.len(),
    decreases b.len(),
{
    search::lemma_find(b, bytes::crlf());
    match relay::first_chunk(b) {
        ChunkFrame::Whole { length, last } => {
            if !(last || length == 0 || length > b.len()) {
                chunk_run_is_within(b.skip(length as int));
            }
        },
        _ => {},
    }
}

/// Chunks may arrive in any number of pieces: the whole chunks in all of the bytes are those in
/// the first piece, and then those in what it left over with the rest behind it.
pub proof fn chunks_may_arrive_in_pieces(b: Seq<u8>, more: Seq<u8>)
    ensures
        ({
            let (sent, end) = relay::chunk_run(b);
            if end is Waiting {
                let (then_sent, then_end) = relay::chunk_run(b.skip(sent as int) + more);
                relay::chunk_run(b + more) == (sent + then_sent, then_end)
            } else {
                relay::chunk_run(b + more) == (sent, end)
            }
        }),
    decreases b.len(),
{
    search::lemma_find(b, bytes::crlf());
    match relay::first_chunk(b) {
        ChunkFrame::Partial => {
            assert(b.skip(0) + more =~= b + more);
        },
        ChunkFrame::Whole { length, last } => {
            lemma_first_chunk_stays(b, more);
            if !last {
                let rest = b.skip(length as int);
                chunks_may_arrive_in_pieces(rest, more);
                chunk_run_is_within(rest);
                let n = relay::chunk_run(rest).0;
                assert((b + more).skip(length as int) =~= rest + more);
                assert(rest.skip(n as int) =~= b.skip((length + n) as int));
            }
        },
        _ => {
            lemma_first_chunk_stays(b, more);
        },
    }
}

/// All that a step writes to the client.
pub open spec fn written(step: RelayStepModel) -> Seq<u8> {
    step.head + step.body
}

/// Whether a relay stands at the same point of a response. The status that an undelimited body
/// is logged with is left out of account.
pub open spec fn same_stage(a: RelayModel, b: RelayModel) -> bool {
    a == b || (a is Stream && b is Stream)
}

/// What the client gets does not depend on how the response was cut into reads: one read of `a`
/// and `b` writes what a read of `a` and then one of `b` write, and leaves the relay at the same
/// point; and once a response is over, further bytes change nothing.
pub proof fn relay_is_blind_to_segmentation(
    state: RelayModel,
    a: Seq<u8>,
    b: Seq<u8>,
    cookie: Option<Seq<char>>,
)
    ensures
        ({
            let first = relay::relay_step(state, UpstreamEventModel::Bytes(a), cookie);
            let whole = relay::relay_step(state, UpstreamEventModel::Bytes(a + b), cookie);
            if first.next is Continue {
                let second = relay::relay_step(first.state, UpstreamEventModel::Bytes(b), cookie);
                &&& written(whole) == written(first) + written(second)
                &&& whole.next == second.next
                &&& same_stage(whole.state, second.state)
            } else {
                &&& written(whole) == written(first)
                &&& whole.next == first.next
            }
        }),
{
    match state {
        RelayModel::Head(pending) => {
            assert(pending + (a + b) =~= pending + a + b);
            lemma_head_pieces(pending + a, b, cookie);
        },
        RelayModel::Stream(_) => {
            assert(Seq::<u8>::empty() + (a + b) =~= (Seq::<u8>::empty() + a) + (Seq::<u8>::empty()
                + b));
        },
        RelayModel::Sized(status, left) => {
            lemma_sized_pieces(status, left, seq![], a, b);
        },
        RelayModel::Chunked(status, pending) => {
            lemma_chunked_pieces(status, seq![], pending + a, b);
            assert(pending + (a + b) =~= pending + a + b);
        },
    }
}

proof fn lemma_head_pieces(buffer: Seq<u8>, b: Seq<u8>, cookie: Option<Seq<char>>)
    ensures
        ({
            let first = relay::head_step(buffer, cookie);
            let whole = relay::head_step(buffer + b, cookie);
            if first.next is Continue {
                let second = relay::relay_step(first.state, UpstreamEventModel::Bytes(b), cookie);
                &&& written(whole) == written(first) + written(second)
                &&& whole.next == second.next
                &&& same_stage(whole.state, second.state)
            } else {
                &&& written(whole) == written(first)
                &&& whole.next == first.next
            }
        }),
{
    let whole = relay::head_step(buffer + b, cookie);
    match bytes::header_end(buffer) {
        None => {
            assert(written(relay::head_step(buffer, cookie)) =~= Seq::<u8>::empty());
            assert(Seq::<u8>::empty() + written(whole) =~= written(whole));
        },
        Some(end) => {
            bytes::lemma_marker_stays(buffer, b, bytes::blank_line());
            search::lemma_find(buffer, bytes::blank_line());
            let head = buffer.take(end);
            let rest = buffer.skip(end);
            assert((buffer + b).take(end) =~= head);
            assert((buffer + b).skip(end) =~= rest + b);
            let lines = response::response_lines(head);
            let status = response::or_ok(response::status_in_line(lines[0]));
            let framing = response::framing_of(lines.skip(1));
            let sent = relay::head_sent(head, cookie);
            if framing.chunked {
                lemma_chunked_pieces(status, sent, rest, b);
            } else if framing.content_length is Some {
                lemma_sized_pieces(status, framing.content_length->0, sent, rest, b);
            } else {
                assert(sent + (rest + b) =~= (sent + rest) + (Seq::<u8>::empty() + b));
            }
        },
    }
}

proof fn lemma_sized_pieces(status: u16, left: nat, head: Seq<u8>, a: Seq<u8>, b: Seq<u8>)
    ensures
        ({
            let first = relay::sized_step(status, left, head, a);
            let whole = relay::sized_step(status, left, head, a + b);
            if first.next is Continue {
                let second = relay::sized_step(status, (left - a.len()) as nat, seq![], b);
                &&& first.state == RelayModel::Sized(status, (left - a.len()) as nat)
                &&& written(whole) == written(first) + written(second)
                &&& whole.next == second.next
                &&& whole.state == second.state
            } else {
                &&& written(whole) == written(first)
                &&& whole.next == first.next
            }
        }),
{
    let first = relay::sized_step(status, left, head, a);
    let whole = relay::sized_step(status, left, head, a + b);
    if a.len() < left {
        let second = relay::sized_step(status, (left - a.len()) as nat, seq![], b);
        assert(written(whole) =~= written(first) + written(second));
    } else {
        assert((a + b).take(left as int) =~= a.take(left as int));
    }
}

proof fn lemma_chunked_pieces(status: u16, head: Seq<u8>, a: Seq<u8>, b: Seq<u8>)
    ensures
        ({
            let first = relay::chunked_step(status, head, a);
            let whole = relay::chunked_step(status, head, a + b);
            let left = a.skip(relay::chunk_run(a).0 as int);
            if first.next is Continue {
                let second = relay::chunked_step(status, seq![], left + b);
                &&& first.state == RelayModel::Chunked(status, left)
                &&& written(whole) == written(first) + written(second)
                &&& whole.next == second.next
                &&& whole.state == second.state
            } else {
                &&& written(whole) == written(first)
                &&& whole.next == first.next
            }
        }),
{
    chunks_may_arrive_in_pieces(a, b);
    chunk_run_is_within(a);
    let (sent, end) = relay::chunk_run(a);
    let left = a.skip(sent as int);
    let first = relay::chunked_step(status, head, a);
    let whole = relay::chunked_step(status, head, a + b);
    if end is Waiting {
        chunk_run_is_within(left + b);
        let (then_sent, then_end) = relay::chunk_run(left + b);
        let second = relay::chunked_step(status, seq![], left + b);
        assert(written(whole) =~= written(first) + written(second));
        assert((a + b).skip((sent + then_sent) as int) =~= (left + b).skip(then_sent as int));
    } else {
        assert((a + b).take(sent as int) =~= a.take(sent as int));
    }
}

} // verus!

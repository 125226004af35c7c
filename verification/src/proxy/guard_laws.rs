//! Whom the guard lets in, where a request goes, and how much of it.
use crate::proxy;
use crate::proxy::bytes;
use crate::proxy::guard;
use crate::proxy::guard::{
    ClientEventModel, ForwardModel, GuardModel, IntakeModel, IntakeStepModel, RejectionModel,
};
use crate::proxy::request;
use crate::proxy::request::HeadModel;
use crate::proxy::tokens;
use crate::routes;
use crate::text::laws;
use crate::text::search;
use vstd::prelude::*;

verus! {

/// Whether a URI has this path and this query: they are parted at its first question mark.
pub open spec fn has_parts(uri: Seq<char>, path: Seq<char>, query: Seq<char>) -> bool {
    laws::lacks(path, '?') && (uri == path + seq!['?'] + query || (uri == path && query.len() == 0))
}

/// Whether the guard asks a request for a token that it does not present: the first of the token's
/// own header, the query, the cookie and the referring page that carries a token has to carry the
/// right one. A guard without a token of its own asks for the empty one.
pub open spec fn lacks_token(head: HeadModel, query: Seq<char>, share: GuardModel) -> bool {
    let wanted = if share.share_token is Some {
        share.share_token->0
    } else {
        Seq::<char>::empty()
    };
    let in_query = tokens::query_token(query);
    share.access_mode == "token"@ && if head.fields.header_token is Some {
        head.fields.header_token->0 != wanted
    } else if in_query is Some {
        in_query->0 != wanted
    } else if head.fields.cookie_token is Some {
        head.fields.cookie_token->0 != wanted
    } else {
        head.fields.referer_token is None || head.fields.referer_token->0 != wanted
    }
}

/// Whether a request of that path has somewhere to go.
pub open spec fn has_somewhere_to_go(path: Seq<char>, share: GuardModel) -> bool {
    exists|i: int|
        0 <= i < share.routes.len() && routes::answers_for((#[trigger] share.routes[i]).0, path)
}

/// Whether a refusal answers a request with this status and message, and tells the log of it.
pub open spec fn refuses(e: RejectionModel, head: HeadModel, status: u16, message: Seq<char>) -> bool {
    e.status == status && e.message == message && e.path == head.uri && e.method == head.method
        && e.user_agent == head.fields.user_agent
}

/// A request that no route answers for is refused as not found. One that lacks the token is refused
/// as unauthorized. Any other is forwarded, to the port of a route that answers for it and that no
/// other answering route is longer than; and the client is handed the cookie exactly if the guard
/// asks for a token and the right one came in the query, in the header or from the referring page.
pub proof fn guard_decides_by_route_and_token(
    head: HeadModel,
    share: GuardModel,
    path: Seq<char>,
    query: Seq<char>,
)
    requires
        has_parts(head.uri, path, query),
    ensures
        !has_somewhere_to_go(path, share) ==> (guard::decision(head, share) matches Err(e)
            && refuses(e, head, 404, "no route matched this request"@)),
        has_somewhere_to_go(path, share) && lacks_token(head, query, share) ==> (guard::decision(
            head,
            share,
        ) matches Err(e) && refuses(
            e,
            head,
            401,
            "missing or invalid share token. Pass ?ltg_token=... or X-LTG-Token."@,
        )),
        has_somewhere_to_go(path, share) && !lacks_token(head, query, share) ==> (guard::decision(
            head,
            share,
        ) matches Ok(f) && is_forwarded(f, head, share, path, query)),
{
    if head.uri == path + seq!['?'] + query {
        laws::split_once_parts(path, '?', query);
    } else {
        laws::split_whole(path, '?');
        assert(query =~= Seq::<char>::empty());
    }
    assert(tokens::uri_parts(head.uri) == (path, query));
    routes::requests_take_the_longest_route(path, share.routes);
    match routes::best_route(path, share.routes) {
        Some(i) => {
            assert(routes::answers_for(share.routes[i].0, path));
        },
        None => {},
    }
}

/// Whether a request is forwarded as it should be.
pub open spec fn is_forwarded(
    f: ForwardModel,
    head: HeadModel,
    share: GuardModel,
    path: Seq<char>,
    query: Seq<char>,
) -> bool {
    let wanted = if share.share_token is Some {
        share.share_token->0
    } else {
        Seq::<char>::empty()
    };
    &&& routes::best_route(path, share.routes) matches Some(i) && 0 <= i < share.routes.len()
        && f.upstream_port == share.routes[i].1
    &&& f.request == guard::upstream_request(head, f.upstream_port)
    &&& f.path == path && f.uri == head.uri && f.method == head.method
    &&& f.user_agent == head.fields.user_agent
    &&& f.set_cookie <==> share.access_mode == "token"@ && (tokens::query_token(query) == Some(
        wanted,
    ) || head.fields.header_token == Some(wanted) || head.fields.referer_token == Some(wanted))
}

/// In any mode but the token's nobody is asked for a token, and nobody is handed the cookie.
pub proof fn open_shares_let_everyone_in(
    head: HeadModel,
    share: GuardModel,
    path: Seq<char>,
    query: Seq<char>,
)
    requires
        has_parts(head.uri, path, query),
        share.access_mode != "token"@,
        has_somewhere_to_go(path, share),
    ensures
        guard::decision(head, share) matches Ok(f) && !f.set_cookie,
{
    guard_decides_by_route_and_token(head, share, path, query);
}

/// Whether bytes are a head and nothing more: they end in an empty line, and no empty line stands
/// before that.
pub open spec fn is_whole_head(head: Seq<u8>) -> bool {
    let n = head.len() as int;
    &&& n >= 4 && blank_at(head, n - 4)
    &&& forall|j: int| 0 <= j < n - 4 ==> !(#[trigger] blank_at(head, j))
}

/// Whether an empty line stands at a position: two carriage returns, each with its line feed.
pub open spec fn blank_at(b: Seq<u8>, j: int) -> bool {
    b[j] == 13 && b[j + 1] == 10 && b[j + 2] == 13 && b[j + 3] == 10
}

/// A head ends behind its first empty line, whatever follows.
pub proof fn heads_end_at_the_first_empty_line(head: Seq<u8>, rest: Seq<u8>)
    requires
        is_whole_head(head),
    ensures
        bytes::header_end(head + rest) == Some(head.len() as int),
        (head + rest).take(head.len() as int) == head,
        (head + rest).skip(head.len() as int) == rest,
{
    let b = head + rest;
    let n = head.len() as int;
    let blank = bytes::blank_line();
    assert(b.skip(n - 4).take(4) =~= blank) by {
        assert(blank_at(head, n - 4));
    }
    assert forall|j: int| 0 <= j < n - 4 implies !search::begins(#[trigger] b.skip(j), blank) by {
        if search::begins(b.skip(j), blank) {
            let t = b.skip(j).take(4);
            assert(t[0] == b[j] && t[1] == b[j + 1] && t[2] == b[j + 2] && t[3] == b[j + 3]);
            assert(blank_at(head, j));
        }
    }
    search::lemma_find_is(b, blank, n - 4);
    assert(b.take(n) =~= head);
    assert(b.skip(n) =~= rest);
}

/// Bytes without an empty line in them are no head yet.
pub proof fn heads_are_awaited(b: Seq<u8>)
    requires
        forall|j: int| 0 <= j && j + 4 <= b.len() ==> !(#[trigger] blank_at(b, j)),
    ensures
        bytes::header_end(b) is None,
{
    let blank = bytes::blank_line();
    assert forall|j: int| 0 <= j <= b.len() implies !search::begins(#[trigger] b.skip(j), blank) by {
        if search::begins(b.skip(j), blank) {
            let t = b.skip(j).take(4);
            assert(t[0] == b[j] && t[1] == b[j + 1] && t[2] == b[j + 2] && t[3] == b[j + 3]);
            assert(blank_at(b, j));
        }
    }
    search::lemma_find_none(b, blank);
}

/// A request is read until its body has the length that its head announces. A share that has run out
/// when the head is complete refuses it as gone; else the guard decides, and what is forwarded is
/// the whole body. If the client closes early, the body is what has come.
pub proof fn requests_are_read_to_their_announced_length(
    head: Seq<u8>,
    body: Seq<u8>,
    now: u64,
    share: GuardModel,
)
    requires
        is_whole_head(head),
    ensures
        ({
            let h = request::head_of(head);
            let step = guard::next_step(
                IntakeModel::Head(seq![]),
                ClientEventModel::Bytes(head + body),
                now,
                share,
            );
            let over = share.expires_at is Some && share.expires_at->0 <= now;
            &&& over ==> (step matches IntakeStepModel::Reject(e) && e.status == 410 && e.message
                == "this share has expired"@ && e.path == h.uri && e.method == h.method
                && e.user_agent is None)
            &&& !over && body.len() < h.fields.content_length ==> step == IntakeStepModel::Read(
                IntakeModel::Body(h, body),
            )
            &&& !over && body.len() >= h.fields.content_length ==> match guard::decision(h, share) {
                Ok(f) => step == IntakeStepModel::Forward(f, body),
                Err(e) => step == IntakeStepModel::Reject(e),
            }
        }),
        ({
            let h = request::head_of(head);
            guard::next_step(
                IntakeModel::Body(h, body),
                ClientEventModel::Closed,
                now,
                share,
            ) == match guard::decision(h, share) {
                Ok(f) => IntakeStepModel::Forward(f, body),
                Err(e) => IntakeStepModel::Reject(e),
            }
        }),
{
    heads_end_at_the_first_empty_line(head, body);
    assert(Seq::<u8>::empty() + (head + body) =~= head + body);
}

/// More of a body counts as if it had come at once.
pub proof fn bodies_may_arrive_in_pieces(
    head: Seq<u8>,
    a: Seq<u8>,
    b: Seq<u8>,
    now: u64,
    later: u64,
    share: GuardModel,
)
    requires
        is_whole_head(head),
        !(share.expires_at is Some && share.expires_at->0 <= now),
        a.len() < request::head_of(head).fields.content_length,
    ensures
        guard::next_step(
            IntakeModel::Body(request::head_of(head), a),
            ClientEventModel::Bytes(b),
            later,
            share,
        ) == guard::next_step(
            IntakeModel::Head(seq![]),
            ClientEventModel::Bytes(head + (a + b)),
            now,
            share,
        ),
{
    requests_are_read_to_their_announced_length(head, a + b, now, share);
}

/// A request whose head never comes is refused as malformed, and one whose reading fails is refused
/// with what went wrong.
pub proof fn broken_requests_are_refused(
    buffer: Seq<u8>,
    head: HeadModel,
    body: Seq<u8>,
    error: Seq<char>,
    now: u64,
    share: GuardModel,
)
    ensures
        guard::next_step(IntakeModel::Head(buffer), ClientEventModel::Closed, now, share) matches IntakeStepModel::Reject(
            e,
        ) && e.status == 400 && e.message == "malformed request"@ && e.path == "/"@ && e.method
            == "GET"@,
        guard::next_step(
            IntakeModel::Head(buffer),
            ClientEventModel::Failed(error),
            now,
            share,
        ) matches IntakeStepModel::Reject(e) && e.status == 400 && e.message
            == "failed to read request: "@ + error,
        guard::next_step(
            IntakeModel::Body(head, body),
            ClientEventModel::Failed(error),
            now,
            share,
        ) matches IntakeStepModel::Reject(e) && refuses(
            e,
            head,
            400,
            "failed to read request body: "@ + error,
        ),
{
}

/// All the bytes that the events brought.
pub open spec fn received(events: Seq<(ClientEventModel, u64)>) -> Seq<u8>
    decreases events.len(),
{
    if events.len() == 0 {
        seq![]
    } else {
        received(events.drop_last()) + match events.last().0 {
            ClientEventModel::Bytes(b) => b,
            _ => seq![],
        }
    }
}

/// Over the whole reading of a request: as long as its head is awaited, all that has come is kept.
/// Once it is complete, the head and the body together are all that has come, and so they are when
/// the request is forwarded: no byte of its body is lost, added or moved.
pub proof fn no_byte_of_a_request_is_lost(events: Seq<(ClientEventModel, u64)>, share: GuardModel)
    requires
        events.len() > 0 ==> proxy::laws::intake_after(events.drop_last(), share) is Read,
    ensures
        match proxy::laws::intake_after(events, share) {
            IntakeStepModel::Read(IntakeModel::Head(buffer)) => buffer == received(events),
            IntakeStepModel::Read(IntakeModel::Body(head, body)) => is_cut(events, head, body),
            IntakeStepModel::Forward(f, body) => is_forwarded_whole(events, f, body, share),
            IntakeStepModel::Reject(_) => true,
        },
    decreases events.len(),
{
    let all = received(events);
    if events.len() > 0 {
        let front = events.drop_last();
        if front.len() > 0 {
            lemma_settled_stays(front, share);
        }
        no_byte_of_a_request_is_lost(front, share);
        match proxy::laws::intake_after(front, share) {
            IntakeStepModel::Read(IntakeModel::Head(buffer)) => {
                if let ClientEventModel::Bytes(b) = events.last().0 {
                    assert(all == buffer + b);
                    if let Some(end) = bytes::header_end(all) {
                        search::lemma_find(all, bytes::blank_line());
                        let head = request::head_of(all.take(end));
                        assert(is_cut_at(events, end, head, all.skip(end)));
                        assert(is_cut(events, head, all.skip(end)));
                        if let IntakeStepModel::Forward(f, body) = proxy::laws::intake_after(events, share) {
                            assert(body == all.skip(end));
                            assert(guard::decision(head, share) == Ok::<
                                ForwardModel,
                                RejectionModel,
                            >(f));
                        }
                    }
                }
            },
            IntakeStepModel::Read(IntakeModel::Body(head, body)) => {
                let n = choose|n: int| is_cut_at(front, n, head, body);
                let before = received(front);
                match events.last().0 {
                    ClientEventModel::Bytes(b) => {
                        assert(all == before + b);
                        assert(all.take(n) =~= before.take(n));
                        assert(all.skip(n) =~= before.skip(n) + b);
                        bytes::lemma_marker_stays(before, b, bytes::blank_line());
                        assert(is_cut_at(events, n, head, body + b));
                        assert(is_cut(events, head, body + b));
                    },
                    _ => {
                        assert(all =~= before);
                        assert(is_cut_at(events, n, head, body));
                        assert(is_cut(events, head, body));
                    },
                }
            },
            _ => {},
        }
    } else {
        assert(all =~= Seq::<u8>::empty());
    }
}

/// Whether what has come is a head that reads like this, and this body.
pub open spec fn is_cut(
    events: Seq<(ClientEventModel, u64)>,
    head: HeadModel,
    body: Seq<u8>,
) -> bool {
    exists|n: int| is_cut_at(events, n, head, body)
}

/// Whether what is forwarded is what the guard has decided on the head that has come, with the body
/// that has come behind it; the body is shorter than announced only if the client sends no more.
pub open spec fn is_forwarded_whole(
    events: Seq<(ClientEventModel, u64)>,
    f: ForwardModel,
    body: Seq<u8>,
    share: GuardModel,
) -> bool {
    exists|head: HeadModel| #[trigger]
        is_cut(events, head, body) && guard::decision(head, share) == Ok::<
            ForwardModel,
            RejectionModel,
        >(f) && (events.last().0 is Bytes ==> body.len() >= head.fields.content_length)
}

/// Whether what has come is cut behind its head at `n`, into a head that reads like this and a body.
pub open spec fn is_cut_at(
    events: Seq<(ClientEventModel, u64)>,
    n: int,
    head: HeadModel,
    body: Seq<u8>,
) -> bool {
    &&& 0 <= n <= received(events).len()
    &&& bytes::header_end(received(events)) == Some(n)
    &&& head == request::head_of(received(events).take(n))
    &&& body == received(events).skip(n)
}

/// A request that is still read has been read all along.
proof fn lemma_settled_stays(events: Seq<(ClientEventModel, u64)>, share: GuardModel)
    requires
        events.len() > 0,
        proxy::laws::intake_after(events, share) is Read,
    ensures
        proxy::laws::intake_after(events.drop_last(), share) is Read,
{
}

} // verus!

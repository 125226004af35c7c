//! The guard's decision on a request: refuse it, or forward it, and what exactly to forward.
use crate::proxy::bytes;
use crate::proxy::bytes::{append_bytes, copy_bytes, find_header_end};
use crate::proxy::request;
use crate::proxy::request::{parse_head, Header, HeadModel, RequestHead};
use crate::proxy::tokens;
use crate::proxy::tokens::{split_uri, strip_token_from_query};
use crate::routes;
use crate::routes::{select_route, ShareRoute};
use crate::text::chars;
use crate::text::chars::{copy_opt, same};
use crate::text::number;
use crate::text::number::to_decimal;
use crate::text::std_calls;
use crate::text::std_calls::to_lower;
use vstd::prelude::*;

verus! {

/// What a share lets through.
#[derive(Debug)]
pub struct Guard {
    pub routes: Vec<ShareRoute>,
    pub access_mode: String,
    pub share_token: Option<String>,
    /// The second of the Unix epoch from which on nothing is let through.
    pub expires_at: Option<u64>,
}

/// What a share lets through.
pub struct GuardModel {
    pub routes: Seq<(Seq<char>, u16)>,
    pub access_mode: Seq<char>,
    pub share_token: Option<Seq<char>>,
    pub expires_at: Option<u64>,
}

impl View for Guard {
    type V = GuardModel;

    open spec fn view(&self) -> GuardModel {
        GuardModel {
            routes: routes::route_list(self.routes@),
            access_mode: self.access_mode@,
            share_token: chars::opt_text(self.share_token),
            expires_at: self.expires_at,
        }
    }
}

/// A request that is not served, and what its log entry says of it.
#[derive(Debug)]
pub struct Rejection {
    pub status: u16,
    pub path: String,
    pub method: String,
    pub message: String,
    pub user_agent: Option<String>,
}

/// A request that is not served, and what its log entry says of it.
pub struct RejectionModel {
    pub status: u16,
    pub path: Seq<char>,
    pub method: Seq<char>,
    pub message: Seq<char>,
    pub user_agent: Option<Seq<char>>,
}

impl View for Rejection {
    type V = RejectionModel;

    open spec fn view(&self) -> RejectionModel {
        RejectionModel {
            status: self.status,
            path: self.path@,
            method: self.method@,
            message: self.message@,
            user_agent: chars::opt_text(self.user_agent),
        }
    }
}

/// A request that is let through, and where to.
#[derive(Debug)]
pub struct Forward {
    pub upstream_port: u16,
    /// The head that the upstream service is sent.
    pub request: String,
    /// The path without the query.
    pub path: String,
    /// The URI as the client sent it.
    pub uri: String,
    pub method: String,
    pub user_agent: Option<String>,
    /// Whether the response hands the client the guard's cookie.
    pub set_cookie: bool,
}

/// A request that is let through, and where to.
pub struct ForwardModel {
    pub upstream_port: u16,
    pub request: Seq<char>,
    pub path: Seq<char>,
    pub uri: Seq<char>,
    pub method: Seq<char>,
    pub user_agent: Option<Seq<char>>,
    pub set_cookie: bool,
}

impl View for Forward {
    type V = ForwardModel;

    open spec fn view(&self) -> ForwardModel {
        ForwardModel {
            upstream_port: self.upstream_port,
            request: self.request@,
            path: self.path@,
            uri: self.uri@,
            method: self.method@,
            user_agent: chars::opt_text(self.user_agent),
            set_cookie: self.set_cookie,
        }
    }
}

impl Forward {
    /// The token that the response hands the client in the guard's cookie, if it does.
    pub fn cookie(&self, guard: &Guard) -> (r: Option<String>)
        ensures
            chars::opt_text(r) == if self@.set_cookie {
                Some(expected_token(guard@))
            } else {
                None
            },
    {
        if self.set_cookie {
            Some(guard.token())
        } else {
            None
        }
    }
}

impl Guard {
    /// The token that the guard asks for.
    fn token(&self) -> (r: String)
        ensures
            r@ == expected_token(self@),
    {
        match &self.share_token {
            Some(t) => t.clone(),
            None => String::new(),
        }
    }
}

/// Whether a share has run out at `now`.
pub open spec fn is_expired(now: u64, expires_at: Option<u64>) -> bool {
    match expires_at {
        Some(end) => now >= end,
        None => false,
    }
}

/// Whether a share has run out at `now`.
pub fn expired(now: u64, expires_at: Option<u64>) -> (r: bool)
    ensures
        r == is_expired(now, expires_at),
{
    match expires_at {
        Some(end) => now >= end,
        None => false,
    }
}

/// The first of two values that is there.
pub open spec fn either(a: Option<Seq<char>>, b: Option<Seq<char>>) -> Option<Seq<char>> {
    if a is Some {
        a
    } else {
        b
    }
}

/// The token that a request presents: in its header, else in its query, else in the cookie, else
/// in the referring page.
pub open spec fn presented_token(head: HeadModel) -> Option<Seq<char>> {
    let query = tokens::query_token(tokens::uri_parts(head.uri).1);
    either(
        either(either(head.fields.header_token, query), head.fields.cookie_token),
        head.fields.referer_token,
    )
}

/// The token that the guard asks for.
pub open spec fn expected_token(guard: GuardModel) -> Seq<char> {
    match guard.share_token {
        Some(t) => t,
        None => seq![],
    }
}

/// Whether the guard asks for a token at all.
pub open spec fn asks_for_token(guard: GuardModel) -> bool {
    guard.access_mode == "token"@
}

/// Whether the guard lets a request in.
pub open spec fn is_admitted(head: HeadModel, guard: GuardModel) -> bool {
    asks_for_token(guard) ==> presented_token(head) == Some(expected_token(guard))
}

/// Whether an admitted client is handed the guard's cookie: the token came some other way.
pub open spec fn earns_cookie(head: HeadModel, guard: GuardModel) -> bool {
    let expected = Some(expected_token(guard));
    let query = tokens::query_token(tokens::uri_parts(head.uri).1);
    asks_for_token(guard) && (query == expected || head.fields.header_token == expected
        || head.fields.referer_token == expected)
}

/// The URI that the upstream service sees: the client's, without the share token.
pub open spec fn upstream_uri(uri: Seq<char>) -> Seq<char> {
    let (path, query) = tokens::uri_parts(uri);
    let kept = tokens::query_without_token(query);
    if kept.len() == 0 {
        path
    } else {
        path + "?"@ + kept
    }
}

/// The `Host` line that the upstream service is sent.
pub open spec fn host_line(port: u16) -> Seq<char> {
    "Host: localhost:"@ + number::decimal(port as nat) + "\r\n"@
}

/// A header as the upstream service is sent it. Host and connection are the proxy's own.
pub open spec fn forwarded_line(header: (Seq<char>, Seq<char>), port: u16) -> Seq<char> {
    if std_calls::lowercase(header.0) == "host"@ {
        host_line(port)
    } else if std_calls::lowercase(header.0) == "connection"@ {
        "Connection: close\r\n"@
    } else {
        header.0 + ": "@ + header.1 + "\r\n"@
    }
}

/// The headers as the upstream service is sent them, in order.
pub open spec fn forwarded_lines(headers: Seq<(Seq<char>, Seq<char>)>, port: u16) -> Seq<char>
    decreases headers.len(),
{
    if headers.len() == 0 {
        seq![]
    } else {
        forwarded_lines(headers.drop_last(), port) + forwarded_line(headers.last(), port)
    }
}

/// Whether a header of that name, in lower case, is among the headers.
pub open spec fn has_header(headers: Seq<(Seq<char>, Seq<char>)>, name: Seq<char>) -> bool {
    exists|i: int| 0 <= i < headers.len() && std_calls::lowercase((#[trigger] headers[i]).0) == name
}

/// The head that the upstream service is sent.
pub open spec fn upstream_request(head: HeadModel, port: u16) -> Seq<char> {
    let headers = head.fields.headers;
    head.method + " "@ + upstream_uri(head.uri) + " "@ + head.version + "\r\n"@ + forwarded_lines(
        headers,
        port,
    ) + (if has_header(headers, "host"@) {
        seq![]
    } else {
        host_line(port)
    }) + (if has_header(headers, "connection"@) {
        seq![]
    } else {
        "Connection: close\r\n"@
    }) + "\r\n"@
}

/// A refusal of a request whose head has been read.
pub open spec fn refusal(head: HeadModel, status: u16, message: Seq<char>) -> RejectionModel {
    RejectionModel {
        status,
        path: head.uri,
        method: head.method,
        message,
        user_agent: head.fields.user_agent,
    }
}

/// The decision on a request: no route, no token, or where it goes.
pub open spec fn decision(head: HeadModel, guard: GuardModel) -> Result<
    ForwardModel,
    RejectionModel,
> {
    let path = tokens::uri_parts(head.uri).0;
    match routes::best_route(path, guard.routes) {
        None => Err(refusal(head, 404, "no route matched this request"@)),
        Some(i) => if !is_admitted(head, guard) {
            Err(
                refusal(
                    head,
                    401,
                    "missing or invalid share token. Pass ?ltg_token=... or X-LTG-Token."@,
                ),
            )
        } else {
            let port = guard.routes[i].1;
            Ok(
                ForwardModel {
                    upstream_port: port,
                    request: upstream_request(head, port),
                    path,
                    uri: head.uri,
                    method: head.method,
                    user_agent: head.fields.user_agent,
                    set_cookie: earns_cookie(head, guard),
                },
            )
        },
    }
}

/// Whether an optional text is there and equal to `expected`.
fn is_text(o: &Option<String>, expected: &str) -> (r: bool)
    ensures
        r == (chars::opt_text(*o) == Some(expected@)),
{
    match o {
        Some(s) => same(s.as_str(), expected),
        None => false,
    }
}

/// A refusal of a request whose head has been read.
pub fn refuse(head: &RequestHead, status: u16, message: String) -> (r: Rejection)
    ensures
        r@ == refusal(head@, status, message@),
{
    Rejection {
        status,
        path: head.uri.clone(),
        method: head.method.clone(),
        message,
        user_agent: copy_opt(&head.fields.user_agent),
    }
}

/// The `Host` line that the upstream service is sent.
fn write_host_line(port: u16) -> (r: String)
    ensures
        r@ == host_line(port),
{
    "Host: localhost:".to_owned().concat(to_decimal(port as u64).as_str()).concat("\r\n")
}

/// Writes the head that the upstream service is sent.
fn write_request(head: &RequestHead, uri: &str, port: u16) -> (r: String)
    requires
        uri@ == upstream_uri(head@.uri),
    ensures
        r@ == upstream_request(head@, port),
{
    let ghost headers = head@.fields.headers;
    let mut out = head.method.clone().concat(" ").concat(uri).concat(" ").concat(
        head.version.as_str(),
    ).concat("\r\n");
    let ghost first = out@;
    let mut saw_host = false;
    let mut saw_connection = false;
    let mut i: usize = 0;
    let n = head.fields.headers.len();
    assert(headers.take(0) =~= Seq::<(Seq<char>, Seq<char>)>::empty());
    while i < n
        invariant
            n == head.fields.headers@.len(),
            i <= n,
            headers == request::header_list(head.fields.headers@),
            out@ =~= first + forwarded_lines(headers.take(i as int), port),
            saw_host == has_header(headers.take(i as int), "host"@),
            saw_connection == has_header(headers.take(i as int), "connection"@),
        decreases n - i,
    {
        let header: &Header = &head.fields.headers[i];
        let ghost seen = headers.take(i as int);
        let ghost now = headers.take(i + 1);
        let lower = to_lower(header.name.as_str());
        proof {
            assert(now.drop_last() =~= seen);
            assert(now.last() == header@);
            assert forall|name: Seq<char>| #[trigger]
                has_header(now, name) == (has_header(seen, name) || std_calls::lowercase(header@.0)
                    == name) by {
                if has_header(seen, name) {
                    let q = choose|q: int|
                        0 <= q < seen.len() && std_calls::lowercase((#[trigger] seen[q]).0)
                            == name;
                    assert(now[q] == seen[q]);
                }
                if std_calls::lowercase(header@.0) == name {
                    assert(now[i as int] == header@);
                }
                if has_header(now, name) {
                    let q = choose|q: int|
                        0 <= q < now.len() && std_calls::lowercase((#[trigger] now[q]).0) == name;
                    if q < i {
                        assert(seen[q] == now[q]);
                    }
                }
            }
        }
        if same(lower.as_str(), "host") {
            saw_host = true;
            out.append(write_host_line(port).as_str());
            proof {
                lemma_host_is_not_connection();
            }
        } else if same(lower.as_str(), "connection") {
            saw_connection = true;
            out.append("Connection: close\r\n");
        } else {
            let line = header.name.clone().concat(": ").concat(header.value.as_str()).concat(
                "\r\n",
            );
            out.append(line.as_str());
        }
        i += 1;
    }
    assert(headers.take(n as int) =~= headers);
    if !saw_host {
        out.append(write_host_line(port).as_str());
    }
    if !saw_connection {
        out.append("Connection: close\r\n");
    }
    out.append("\r\n");
    assert(out@ =~= upstream_request(head@, port));
    out
}

proof fn lemma_host_is_not_connection()
    ensures
        "host"@ != "connection"@,
{
    reveal_strlit("host");
    reveal_strlit("connection");
    assert("host"@.len() != "connection"@.len());
}

/// Decides on a request whose head has been read.
pub fn decide(head: &RequestHead, guard: &Guard) -> (r: Result<Forward, Rejection>)
    ensures
        match r {
            Ok(f) => decision(head@, guard@) == Ok::<ForwardModel, RejectionModel>(f@),
            Err(e) => decision(head@, guard@) == Err::<ForwardModel, RejectionModel>(e@),
        },
{
    let (path, query) = split_uri(head.uri.as_str());
    let port = match select_route(path.as_str(), guard.routes.as_slice()) {
        Some(route) => route.upstream_port,
        None => {
            return Err(refuse(head, 404, "no route matched this request".to_owned()));
        },
    };
    let (kept, query_token) = strip_token_from_query(query.as_str());
    let mut set_cookie = false;
    if same(guard.access_mode.as_str(), "token") {
        let expected = guard.token();
        let wanted = expected.as_str();
        let admitted = if head.fields.header_token.is_some() {
            is_text(&head.fields.header_token, wanted)
        } else if query_token.is_some() {
            is_text(&query_token, wanted)
        } else if head.fields.cookie_token.is_some() {
            is_text(&head.fields.cookie_token, wanted)
        } else {
            is_text(&head.fields.referer_token, wanted)
        };
        if !admitted {
            return Err(
                refuse(
                    head,
                    401,
                    "missing or invalid share token. Pass ?ltg_token=... or X-LTG-Token.".to_owned(),
                ),
            );
        }
        set_cookie = is_text(&query_token, wanted) || is_text(&head.fields.header_token, wanted)
            || is_text(&head.fields.referer_token, wanted);
    }
    let uri = if kept.as_str().is_empty() {
        path.clone()
    } else {
        path.clone().concat("?").concat(kept.as_str())
    };
    Ok(
        Forward {
            upstream_port: port,
            request: write_request(head, uri.as_str(), port),
            path,
            uri: head.uri.clone(),
            method: head.method.clone(),
            user_agent: copy_opt(&head.fields.user_agent),
            set_cookie,
        },
    )
}

/// How far a request has been read.
pub enum Intake {
    /// Its head is not complete.
    Head(Vec<u8>),
    /// Its head is read; this much of its body has come.
    Body(RequestHead, Vec<u8>),
}

/// How far a request has been read.
pub enum IntakeModel {
    Head(Seq<u8>),
    Body(HeadModel, Seq<u8>),
}

impl View for Intake {
    type V = IntakeModel;

    open spec fn view(&self) -> IntakeModel {
        match self {
            Intake::Head(buffer) => IntakeModel::Head(buffer@),
            Intake::Body(head, body) => IntakeModel::Body(head@, body@),
        }
    }
}

/// What reading from the client came to.
pub enum ClientEvent {
    /// Bytes arrived.
    Bytes(Vec<u8>),
    /// The client sends nothing more.
    Closed,
    /// Reading failed, with a message.
    Failed(String),
}

/// What reading from the client came to.
pub enum ClientEventModel {
    Bytes(Seq<u8>),
    Closed,
    Failed(Seq<char>),
}

impl View for ClientEvent {
    type V = ClientEventModel;

    open spec fn view(&self) -> ClientEventModel {
        match self {
            ClientEvent::Bytes(b) => ClientEventModel::Bytes(b@),
            ClientEvent::Closed => ClientEventModel::Closed,
            ClientEvent::Failed(e) => ClientEventModel::Failed(e@),
        }
    }
}

/// What to do next with a request.
pub enum IntakeStep {
    /// Read more of it.
    Read(Intake),
    /// Send it on, with this body.
    Forward(Forward, Vec<u8>),
    /// Answer it with an error.
    Reject(Rejection),
}

/// What to do next with a request.
pub enum IntakeStepModel {
    Read(IntakeModel),
    Forward(ForwardModel, Seq<u8>),
    Reject(RejectionModel),
}

impl View for IntakeStep {
    type V = IntakeStepModel;

    open spec fn view(&self) -> IntakeStepModel {
        match self {
            IntakeStep::Read(i) => IntakeStepModel::Read(i@),
            IntakeStep::Forward(f, body) => IntakeStepModel::Forward(f@, body@),
            IntakeStep::Reject(r) => IntakeStepModel::Reject(r@),
        }
    }
}

/// A refusal of a request whose head never came.
pub open spec fn headless_refusal(message: Seq<char>) -> RejectionModel {
    RejectionModel { status: 400, path: "/"@, method: "GET"@, message, user_agent: None }
}

/// A request whose reading is over.
pub open spec fn settled(head: HeadModel, body: Seq<u8>, guard: GuardModel) -> IntakeStepModel {
    match decision(head, guard) {
        Ok(f) => IntakeStepModel::Forward(f, body),
        Err(e) => IntakeStepModel::Reject(e),
    }
}

/// A request whose head is read: its body is waited for until it has the announced length.
pub open spec fn with_body(head: HeadModel, body: Seq<u8>, guard: GuardModel) -> IntakeStepModel {
    if body.len() < head.fields.content_length {
        IntakeStepModel::Read(IntakeModel::Body(head, body))
    } else {
        settled(head, body, guard)
    }
}

/// A request of which `buffer` has come. As soon as its head is complete, it is refused if the
/// share has run out.
pub open spec fn with_buffer(buffer: Seq<u8>, now: u64, guard: GuardModel) -> IntakeStepModel {
    match bytes::header_end(buffer) {
        None => IntakeStepModel::Read(IntakeModel::Head(buffer)),
        Some(end) => {
            let head = request::head_of(buffer.take(end));
            if is_expired(now, guard.expires_at) {
                IntakeStepModel::Reject(
                    RejectionModel {
                        user_agent: None,
                        ..refusal(head, 410, "this share has expired"@)
                    },
                )
            } else {
                with_body(head, buffer.skip(end), guard)
            }
        },
    }
}

/// What follows from an event while a request is read.
pub open spec fn next_step(
    intake: IntakeModel,
    event: ClientEventModel,
    now: u64,
    guard: GuardModel,
) -> IntakeStepModel {
    match (intake, event) {
        (IntakeModel::Head(buffer), ClientEventModel::Bytes(b)) => with_buffer(
            buffer + b,
            now,
            guard,
        ),
        (IntakeModel::Head(_), ClientEventModel::Closed) => IntakeStepModel::Reject(
            headless_refusal("malformed request"@),
        ),
        (IntakeModel::Head(_), ClientEventModel::Failed(e)) => IntakeStepModel::Reject(
            headless_refusal("failed to read request: "@ + e),
        ),
        (IntakeModel::Body(head, body), ClientEventModel::Bytes(b)) => with_body(
            head,
            body + b,
            guard,
        ),
        (IntakeModel::Body(head, body), ClientEventModel::Closed) => settled(head, body, guard),
        (IntakeModel::Body(head, _), ClientEventModel::Failed(e)) => IntakeStepModel::Reject(
            refusal(head, 400, "failed to read request body: "@ + e),
        ),
    }
}

impl Intake {
    /// Before anything has been read.
    pub fn start() -> (r: Intake)
        ensures
            r@ == IntakeModel::Head(seq![]),
    {
        Intake::Head(Vec::new())
    }

    /// What follows from an event while the request is read.
    pub fn advance(self, event: ClientEvent, now: u64, guard: &Guard) -> (r: IntakeStep)
        ensures
            r@ == next_step(self@, event@, now, guard@),
    {
        match self {
            Intake::Head(buffer) => match event {
                ClientEvent::Bytes(b) => {
                    let mut all = buffer;
                    append_bytes(&mut all, b.as_slice());
                    take_head(all, now, guard)
                },
                ClientEvent::Closed => IntakeStep::Reject(
                    reject_headless("malformed request".to_owned()),
                ),
                ClientEvent::Failed(e) => IntakeStep::Reject(
                    reject_headless("failed to read request: ".to_owned().concat(e.as_str())),
                ),
            },
            Intake::Body(head, body) => match event {
                ClientEvent::Bytes(b) => {
                    let mut all = body;
                    append_bytes(&mut all, b.as_slice());
                    take_body(head, all, guard)
                },
                ClientEvent::Closed => settle(&head, body, guard),
                ClientEvent::Failed(e) => IntakeStep::Reject(
                    refuse(
                        &head,
                        400,
                        "failed to read request body: ".to_owned().concat(e.as_str()),
                    ),
                ),
            },
        }
    }
}

/// A refusal of a request whose head never came.
fn reject_headless(message: String) -> (r: Rejection)
    ensures
        r@ == headless_refusal(message@),
{
    Rejection {
        status: 400,
        path: "/".to_owned(),
        method: "GET".to_owned(),
        message,
        user_agent: None,
    }
}

/// A request of which `buffer` has come.
fn take_head(buffer: Vec<u8>, now: u64, guard: &Guard) -> (r: IntakeStep)
    ensures
        r@ == with_buffer(buffer@, now, guard@),
{
    match find_header_end(buffer.as_slice()) {
        None => IntakeStep::Read(Intake::Head(buffer)),
        Some(end) => {
            let head_bytes = copy_bytes(buffer.as_slice(), 0, end);
            let body = copy_bytes(buffer.as_slice(), end, buffer.len());
            assert(head_bytes@ =~= buffer@.take(end as int));
            assert(body@ =~= buffer@.skip(end as int));
            let head = parse_head(head_bytes.as_slice());
            if expired(now, guard.expires_at) {
                let mut rejection = refuse(&head, 410, "this share has expired".to_owned());
                rejection.user_agent = None;
                IntakeStep::Reject(rejection)
            } else {
                take_body(head, body, guard)
            }
        },
    }
}

/// A request whose head is read and of whose body this much has come.
fn take_body(head: RequestHead, body: Vec<u8>, guard: &Guard) -> (r: IntakeStep)
    ensures
        r@ == with_body(head@, body@, guard@),
{
    if body.len() < head.fields.content_length {
        IntakeStep::Read(Intake::Body(head, body))
    } else {
        settle(&head, body, guard)
    }
}

/// A request whose reading is over.
fn settle(head: &RequestHead, body: Vec<u8>, guard: &Guard) -> (r: IntakeStep)
    ensures
        r@ == settled(head@, body@, guard@),
{
    match decide(head, guard) {
        Ok(f) => IntakeStep::Forward(f, body),
        Err(e) => IntakeStep::Reject(e),
    }
}

} // verus!

//! The relay of an upstream response to the client, one read at a time.
use crate::proxy::bytes;
use crate::proxy::bytes::{append_bytes, copy_bytes, find_crlf, find_header_end};
use crate::proxy::response;
use crate::proxy::response::{
    inject_auth_cookie, parse_chunk_size, parse_response_metadata, parse_status_code,
};
use crate::text::chars;
use crate::text::search;
use vstd::prelude::*;

verus! {

/// What the bytes from the start of a chunk on amount to.
pub enum ChunkFrame {
    /// The chunk is not complete.
    Partial,
    /// Its first line announces no size.
    Malformed,
    /// It announces a size that no buffer can hold.
    TooLarge,
    /// It is complete with its line end; the last chunk of a body is empty.
    Whole { length: nat, last: bool },
}

/// The chunk that `b` begins with: a line with its size, as many bytes, and a line end.
pub open spec fn first_chunk(b: Seq<u8>) -> ChunkFrame {
    match search::find(b, bytes::crlf()) {
        None => ChunkFrame::Partial,
        Some(end) => match response::chunk_size(b.take(end)) {
            None => ChunkFrame::Malformed,
            Some(size) => if end + 2 + size + 2 > usize::MAX {
                ChunkFrame::TooLarge
            } else if b.len() < end + 2 + size + 2 {
                ChunkFrame::Partial
            } else {
                ChunkFrame::Whole { length: (end + 2 + size + 2) as nat, last: size == 0 }
            },
        },
    }
}

/// How a run of chunks ends.
#[derive(Clone, Copy, PartialEq, Eq, Structural, Debug)]
pub enum ChunkEnd {
    /// With part of a chunk.
    Waiting,
    /// With the last chunk of the body.
    Finished,
    /// With something that is no chunk.
    Malformed,
    /// With a chunk that no buffer can hold.
    TooLarge,
}

/// How many bytes of whole chunks `b` begins with, up to the last chunk of the body, and what
/// follows them.
pub open spec fn chunk_run(b: Seq<u8>) -> (nat, ChunkEnd)
    decreases b.len(),
{
    match first_chunk(b) {
        ChunkFrame::Partial => (0, ChunkEnd::Waiting),
        ChunkFrame::Malformed => (0, ChunkEnd::Malformed),
        ChunkFrame::TooLarge => (0, ChunkEnd::TooLarge),
        ChunkFrame::Whole { length, last } => if last || length == 0 || length > b.len() {
            (length, ChunkEnd::Finished)
        } else {
            let (more, end) = chunk_run(b.skip(length as int));
            (length + more, end)
        },
    }
}

/// How far a response has been relayed.
pub enum RelayModel {
    /// Its head is not complete; this much has come.
    Head(Seq<u8>),
    /// Its body lasts until the upstream service closes.
    Stream(u16),
    /// So many bytes of its body are left.
    Sized(u16, nat),
    /// Its body comes in chunks; this part of one has come.
    Chunked(u16, Seq<u8>),
}

/// What reading from the upstream service came to.
pub enum UpstreamEvent {
    /// Bytes arrived.
    Bytes(Vec<u8>),
    /// The service sends nothing more.
    Closed,
    /// Reading failed.
    Failed,
}

/// What reading from the upstream service came to.
pub enum UpstreamEventModel {
    Bytes(Seq<u8>),
    Closed,
    Failed,
}

impl View for UpstreamEvent {
    type V = UpstreamEventModel;

    open spec fn view(&self) -> UpstreamEventModel {
        match self {
            UpstreamEvent::Bytes(b) => UpstreamEventModel::Bytes(b@),
            UpstreamEvent::Closed => UpstreamEventModel::Closed,
            UpstreamEvent::Failed => UpstreamEventModel::Failed,
        }
    }
}

/// What becomes of the relay once the bytes of a step are written.
#[derive(Clone, Copy, PartialEq, Eq, Structural, Debug)]
pub enum RelayNext {
    /// More is to be read.
    Continue,
    /// The response is complete; its status is logged.
    Done(u16),
    /// The response cannot be completed.
    Fail,
    /// The service announced a chunk that no buffer can hold.
    TooLarge,
}

/// What one event leads to.
pub struct RelayStepModel {
    /// What is written of the head.
    pub head: Seq<u8>,
    /// What is written of the body, behind the head.
    pub body: Seq<u8>,
    pub next: RelayNext,
    /// What is reported where writing the body fails, or the relay cannot go on.
    pub failure: Seq<char>,
    pub state: RelayModel,
}

/// The report on a head or an undelimited body that could not be written.
pub open spec fn stream_failure() -> Seq<char> {
    "failed to stream upstream response"@
}

/// The report on a body of announced length that broke off.
pub open spec fn sized_failure() -> Seq<char> {
    "failed to stream upstream response body"@
}

/// The report on a body in chunks that broke off.
pub open spec fn chunked_failure() -> Seq<char> {
    "failed to stream chunked upstream response"@
}

/// A body of which `left` bytes are still to come receives `b`; more than that is not passed on.
pub open spec fn sized_step(status: u16, left: nat, head: Seq<u8>, b: Seq<u8>) -> RelayStepModel {
    let taken = if b.len() < left {
        b.len()
    } else {
        left
    };
    RelayStepModel {
        head,
        body: b.take(taken as int),
        next: if taken == left {
            RelayNext::Done(status)
        } else {
            RelayNext::Continue
        },
        failure: sized_failure(),
        state: RelayModel::Sized(status, (left - taken) as nat),
    }
}

/// A body in chunks of which `pending` has not been passed on; whole chunks are.
pub open spec fn chunked_step(status: u16, head: Seq<u8>, pending: Seq<u8>) -> RelayStepModel {
    let (sent, end) = chunk_run(pending);
    RelayStepModel {
        head,
        body: pending.take(sent as int),
        next: match end {
            ChunkEnd::Waiting => RelayNext::Continue,
            ChunkEnd::Finished => RelayNext::Done(status),
            ChunkEnd::Malformed => RelayNext::Fail,
            ChunkEnd::TooLarge => RelayNext::TooLarge,
        },
        failure: chunked_failure(),
        state: RelayModel::Chunked(status, pending.skip(sent as int)),
    }
}

/// The head that the client is sent: with the guard's cookie if it has earned one.
pub open spec fn head_sent(head: Seq<u8>, cookie: Option<Seq<char>>) -> Seq<u8> {
    match cookie {
        Some(token) => response::head_with_cookie(head, token),
        None => head,
    }
}

/// A response of which `buffer` has come and whose head has not been sent. Chunks take precedence
/// over an announced length; without either the body lasts until the service closes.
pub open spec fn head_step(buffer: Seq<u8>, cookie: Option<Seq<char>>) -> RelayStepModel {
    match bytes::header_end(buffer) {
        None => RelayStepModel {
            head: seq![],
            body: seq![],
            next: RelayNext::Continue,
            failure: stream_failure(),
            state: RelayModel::Head(buffer),
        },
        Some(end) => {
            let head = buffer.take(end);
            let rest = buffer.skip(end);
            let lines = response::response_lines(head);
            let status = response::or_ok(response::status_in_line(lines[0]));
            let framing = response::framing_of(lines.skip(1));
            let sent = head_sent(head, cookie);
            if framing.chunked {
                chunked_step(status, sent, rest)
            } else {
                match framing.content_length {
                    Some(length) => sized_step(status, length, sent, rest),
                    None => RelayStepModel {
                        head: sent,
                        body: rest,
                        next: RelayNext::Continue,
                        failure: stream_failure(),
                        state: RelayModel::Stream(response::or_ok(response::status_code(buffer))),
                    },
                }
            }
        },
    }
}

/// A relay that writes nothing and stops.
pub open spec fn stopped(state: RelayModel, next: RelayNext, failure: Seq<char>) -> RelayStepModel {
    RelayStepModel { head: seq![], body: seq![], next, failure, state }
}

/// What an event leads to.
pub open spec fn relay_step(
    state: RelayModel,
    event: UpstreamEventModel,
    cookie: Option<Seq<char>>,
) -> RelayStepModel {
    match (state, event) {
        (RelayModel::Head(pending), UpstreamEventModel::Bytes(b)) => head_step(
            pending + b,
            cookie,
        ),
        (RelayModel::Stream(_), UpstreamEventModel::Bytes(b)) => RelayStepModel {
            head: seq![],
            body: b,
            next: RelayNext::Continue,
            failure: stream_failure(),
            state,
        },
        (RelayModel::Sized(status, left), UpstreamEventModel::Bytes(b)) => sized_step(
            status,
            left,
            seq![],
            b,
        ),
        (RelayModel::Chunked(status, pending), UpstreamEventModel::Bytes(b)) => chunked_step(
            status,
            seq![],
            pending + b,
        ),
        (RelayModel::Head(pending), UpstreamEventModel::Closed) => RelayStepModel {
            head: seq![],
            body: pending,
            next: RelayNext::Done(response::or_ok(response::status_code(pending))),
            failure: stream_failure(),
            state,
        },
        (RelayModel::Stream(status), UpstreamEventModel::Closed) => stopped(
            state,
            RelayNext::Done(status),
            stream_failure(),
        ),
        (RelayModel::Head(_), UpstreamEventModel::Failed) | (
            RelayModel::Stream(_),
            UpstreamEventModel::Failed,
        ) => stopped(state, RelayNext::Fail, "failed to read upstream response"@),
        (RelayModel::Sized(..), _) => stopped(state, RelayNext::Fail, sized_failure()),
        (RelayModel::Chunked(..), _) => stopped(state, RelayNext::Fail, chunked_failure()),
    }
}

/// How far a response has been relayed.
#[derive(Debug)]
pub enum RelayState {
    /// Its head is not complete; this much has come.
    Head(Vec<u8>),
    /// Its body lasts until the upstream service closes.
    Stream(u16),
    /// So many bytes of its body are left.
    Sized(u16, usize),
    /// Its body comes in chunks; this part of one has come.
    Chunked(u16, Vec<u8>),
}

impl View for RelayState {
    type V = RelayModel;

    open spec fn view(&self) -> RelayModel {
        match self {
            RelayState::Head(pending) => RelayModel::Head(pending@),
            RelayState::Stream(status) => RelayModel::Stream(*status),
            RelayState::Sized(status, left) => RelayModel::Sized(*status, *left as nat),
            RelayState::Chunked(status, pending) => RelayModel::Chunked(*status, pending@),
        }
    }
}

/// What one event leads to.
#[derive(Debug)]
pub struct RelayStep {
    /// What to write of the head.
    pub head: Vec<u8>,
    /// What to write of the body, behind the head.
    pub body: Vec<u8>,
    pub next: RelayNext,
    /// What to report where writing the body fails, or the relay cannot go on.
    pub failure: &'static str,
    pub state: RelayState,
}

impl View for RelayStep {
    type V = RelayStepModel;

    open spec fn view(&self) -> RelayStepModel {
        RelayStepModel {
            head: self.head@,
            body: self.body@,
            next: self.next,
            failure: self.failure@,
            state: self.state@,
        }
    }
}

/// How many bytes of whole chunks the buffer begins with, and what follows them.
fn run_chunks(buffer: &[u8]) -> (r: (usize, ChunkEnd))
    ensures
        r.0 <= buffer@.len(),
        chunk_run(buffer@) == (r.0 as nat, r.1),
{
    let n = buffer.len();
    let mut at: usize = 0;
    assert(buffer@.skip(0) =~= buffer@);
    loop
        invariant
            n == buffer@.len(),
            at <= n,
            ({
                let (more, end) = chunk_run(buffer@.skip(at as int));
                chunk_run(buffer@) == ((at + more) as nat, end)
            }),
        decreases n - at,
    {
        let rest = vstd::slice::slice_subrange(buffer, at, n);
        assert(rest@ =~= buffer@.skip(at as int));
        let line_end = match find_crlf(rest) {
            None => {
                return (at, ChunkEnd::Waiting);
            },
            Some(i) => i,
        };
        let size_line = vstd::slice::slice_subrange(rest, 0, line_end);
        assert(size_line@ =~= rest@.take(line_end as int));
        let size = match parse_chunk_size(size_line) {
            None => {
                return (at, ChunkEnd::Malformed);
            },
            Some(size) => size,
        };
        let framing: usize = line_end + 2;
        if size > usize::MAX - 2 || framing > usize::MAX - 2 - size {
            return (at, ChunkEnd::TooLarge);
        }
        let length: usize = framing + size + 2;
        if rest.len() < length {
            return (at, ChunkEnd::Waiting);
        }
        assert(rest@.skip(length as int) =~= buffer@.skip(at + length));
        at = at + length;
        if size == 0 {
            return (at, ChunkEnd::Finished);
        }
    }
}

/// A body of which `left` bytes are still to come receives `b`.
fn take_sized(status: u16, left: usize, head: Vec<u8>, b: &[u8]) -> (r: RelayStep)
    ensures
        r@ == sized_step(status, left as nat, head@, b@),
{
    let taken = if b.len() < left {
        b.len()
    } else {
        left
    };
    let body = copy_bytes(b, 0, taken);
    assert(body@ =~= b@.take(taken as int));
    RelayStep {
        head,
        body,
        next: if taken == left {
            RelayNext::Done(status)
        } else {
            RelayNext::Continue
        },
        failure: "failed to stream upstream response body",
        state: RelayState::Sized(status, left - taken),
    }
}

/// A body in chunks of which `pending` has not been passed on.
fn take_chunks(status: u16, head: Vec<u8>, pending: Vec<u8>) -> (r: RelayStep)
    ensures
        r@ == chunked_step(status, head@, pending@),
{
    let (sent, end) = run_chunks(pending.as_slice());
    let body = copy_bytes(pending.as_slice(), 0, sent);
    let left = copy_bytes(pending.as_slice(), sent, pending.len());
    assert(body@ =~= pending@.take(sent as int));
    assert(left@ =~= pending@.skip(sent as int));
    RelayStep {
        head,
        body,
        next: match end {
            ChunkEnd::Waiting => RelayNext::Continue,
            ChunkEnd::Finished => RelayNext::Done(status),
            ChunkEnd::Malformed => RelayNext::Fail,
            ChunkEnd::TooLarge => RelayNext::TooLarge,
        },
        failure: "failed to stream chunked upstream response",
        state: RelayState::Chunked(status, left),
    }
}

/// A response of which `buffer` has come and whose head has not been sent.
fn take_response_head(buffer: Vec<u8>, cookie: &Option<String>) -> (r: RelayStep)
    ensures
        r@ == head_step(buffer@, chars::opt_text(*cookie)),
{
    match find_header_end(buffer.as_slice()) {
        None => {
            RelayStep {
                head: Vec::new(),
                body: Vec::new(),
                next: RelayNext::Continue,
                failure: "failed to stream upstream response",
                state: RelayState::Head(buffer),
            }
        },
        Some(end) => {
            let head = copy_bytes(buffer.as_slice(), 0, end);
            let rest = copy_bytes(buffer.as_slice(), end, buffer.len());
            assert(head@ =~= buffer@.take(end as int));
            assert(rest@ =~= buffer@.skip(end as int));
            let (status, content_length, chunked) = parse_response_metadata(head.as_slice());
            let sent = match cookie {
                Some(token) => inject_auth_cookie(head.as_slice(), token.as_str()),
                None => head,
            };
            if chunked {
                take_chunks(status, sent, rest)
            } else {
                match content_length {
                    Some(length) => take_sized(status, length, sent, rest.as_slice()),
                    None => {
                        let streamed = match parse_status_code(buffer.as_slice()) {
                            Some(s) => s,
                            None => 200,
                        };
                        RelayStep {
                            head: sent,
                            body: rest,
                            next: RelayNext::Continue,
                            failure: "failed to stream upstream response",
                            state: RelayState::Stream(streamed),
                        }
                    },
                }
            }
        },
    }
}

/// A step that writes nothing.
fn stop(state: RelayState, next: RelayNext, failure: &'static str) -> (r: RelayStep)
    ensures
        r@ == stopped(state@, next, failure@),
{
    RelayStep { head: Vec::new(), body: Vec::new(), next, failure, state }
}

impl RelayState {
    /// Before anything has been read.
    pub fn start() -> (r: RelayState)
        ensures
            r@ == RelayModel::Head(seq![]),
    {
        RelayState::Head(Vec::new())
    }

    /// What an event leads to. `cookie` is the token that the client is handed, if any.
    pub fn advance(self, event: UpstreamEvent, cookie: &Option<String>) -> (r: RelayStep)
        ensures
            r@ == relay_step(self@, event@, chars::opt_text(*cookie)),
    {
        match event {
            UpstreamEvent::Bytes(b) => match self {
                RelayState::Head(pending) => {
                    let mut all = pending;
                    append_bytes(&mut all, b.as_slice());
                    take_response_head(all, cookie)
                },
                RelayState::Stream(status) => RelayStep {
                    head: Vec::new(),
                    body: b,
                    next: RelayNext::Continue,
                    failure: "failed to stream upstream response",
                    state: RelayState::Stream(status),
                },
                RelayState::Sized(status, left) => take_sized(
                    status,
                    left,
                    Vec::new(),
                    b.as_slice(),
                ),
                RelayState::Chunked(status, pending) => {
                    let mut all = pending;
                    append_bytes(&mut all, b.as_slice());
                    take_chunks(status, Vec::new(), all)
                },
            },
            UpstreamEvent::Closed => match self {
                RelayState::Head(pending) => {
                    let status = match parse_status_code(pending.as_slice()) {
                        Some(s) => s,
                        None => 200,
                    };
                    let body = copy_bytes(pending.as_slice(), 0, pending.len());
                    assert(body@ =~= pending@);
                    RelayStep {
                        head: Vec::new(),
                        body,
                        next: RelayNext::Done(status),
                        failure: "failed to stream upstream response",
                        state: RelayState::Head(pending),
                    }
                },
                RelayState::Stream(status) => stop(
                    RelayState::Stream(status),
                    RelayNext::Done(status),
                    "failed to stream upstream response",
                ),
                RelayState::Sized(status, left) => stop(
                    RelayState::Sized(status, left),
                    RelayNext::Fail,
                    "failed to stream upstream response body",
                ),
                RelayState::Chunked(status, pending) => stop(
                    RelayState::Chunked(status, pending),
                    RelayNext::Fail,
                    "failed to stream chunked upstream response",
                ),
            },
            UpstreamEvent::Failed => match self {
                RelayState::Head(pending) => stop(
                    RelayState::Head(pending),
                    RelayNext::Fail,
                    "failed to read upstream response",
                ),
                RelayState::Stream(status) => stop(
                    RelayState::Stream(status),
                    RelayNext::Fail,
                    "failed to read upstream response",
                ),
                RelayState::Sized(status, left) => stop(
                    RelayState::Sized(status, left),
                    RelayNext::Fail,
                    "failed to stream upstream response body",
                ),
                RelayState::Chunked(status, pending) => stop(
                    RelayState::Chunked(status, pending),
                    RelayNext::Fail,
                    "failed to stream chunked upstream response",
                ),
            },
        }
    }
}

} // verus!

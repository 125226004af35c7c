//! The head of a request: its first line, its headers and what the guard picks out of them.
use crate::proxy::tokens;
use crate::proxy::tokens::{cookie_value, token_from_referer};
use crate::text::chars;
use crate::text::chars::same;
use crate::text::class;
use crate::text::class::{drop_empty, split_once_by, trim_space, words_of, CharClass};
use crate::text::number;
use crate::text::search;
use crate::text::search::split_at_each;
use crate::text::std_calls;
use crate::text::std_calls::{from_lossy, parse_usize, to_lower};
use vstd::prelude::*;

verus! {

/// A header of a request, without the white space around its name and its value.
#[derive(Debug)]
pub struct Header {
    pub name: String,
    pub value: String,
}

impl View for Header {
    type V = (Seq<char>, Seq<char>);

    open spec fn view(&self) -> (Seq<char>, Seq<char>) {
        (self.name@, self.value@)
    }
}

/// The names and values of a list of headers.
pub open spec fn header_list(headers: Seq<Header>) -> Seq<(Seq<char>, Seq<char>)> {
    headers.map_values(|h: Header| h@)
}

/// What the guard has read of a request's headers.
pub struct HeaderModel {
    /// The headers that are passed on, in order.
    pub headers: Seq<(Seq<char>, Seq<char>)>,
    /// The length that the body is announced to have.
    pub content_length: nat,
    pub user_agent: Option<Seq<char>>,
    /// The share token in a header of its own.
    pub header_token: Option<Seq<char>>,
    /// The share token in the guard's cookie.
    pub cookie_token: Option<Seq<char>>,
    /// The share token in the query of the referring page.
    pub referer_token: Option<Seq<char>>,
}

/// The head of a request.
pub struct HeadModel {
    pub method: Seq<char>,
    pub uri: Seq<char>,
    pub version: Seq<char>,
    pub fields: HeaderModel,
}

/// The head of a request.
#[derive(Debug)]
pub struct RequestHead {
    pub method: String,
    pub uri: String,
    pub version: String,
    pub fields: HeaderFields,
}

/// What the guard has read of a request's headers.
#[derive(Debug)]
pub struct HeaderFields {
    /// The headers that are passed on, in order.
    pub headers: Vec<Header>,
    /// The length that the body is announced to have.
    pub content_length: usize,
    pub user_agent: Option<String>,
    /// The share token in a header of its own.
    pub header_token: Option<String>,
    /// The share token in the guard's cookie.
    pub cookie_token: Option<String>,
    /// The share token in the query of the referring page.
    pub referer_token: Option<String>,
}

impl View for HeaderFields {
    type V = HeaderModel;

    open spec fn view(&self) -> HeaderModel {
        HeaderModel {
            headers: header_list(self.headers@),
            content_length: self.content_length as nat,
            user_agent: chars::opt_text(self.user_agent),
            header_token: chars::opt_text(self.header_token),
            cookie_token: chars::opt_text(self.cookie_token),
            referer_token: chars::opt_text(self.referer_token),
        }
    }
}

impl View for RequestHead {
    type V = HeadModel;

    open spec fn view(&self) -> HeadModel {
        HeadModel {
            method: self.method@,
            uri: self.uri@,
            version: self.version@,
            fields: self.fields@,
        }
    }
}

/// Before any header is read.
pub open spec fn no_headers() -> HeaderModel {
    HeaderModel {
        headers: seq![],
        content_length: 0,
        user_agent: None,
        header_token: None,
        cookie_token: None,
        referer_token: None,
    }
}

/// What one header line adds. A line without a colon adds nothing; the share token's own header
/// is noted but not passed on; of a header that comes twice the later one counts.
pub open spec fn with_line(seen: HeaderModel, line: Seq<char>) -> HeaderModel {
    match class::split_once(line, CharClass::Char(':')) {
        None => seen,
        Some((raw_name, raw_value)) => {
            let name = class::trimmed(raw_name);
            let value = class::trimmed(raw_value);
            let lower = std_calls::lowercase(name);
            let passed = HeaderModel { headers: seen.headers.push((name, value)), ..seen };
            if lower == "content-length"@ {
                HeaderModel {
                    content_length: match number::decimal_up_to(value, usize::MAX as nat) {
                        Some(n) => n,
                        None => 0,
                    },
                    ..passed
                }
            } else if lower == "user-agent"@ {
                HeaderModel { user_agent: Some(value), ..passed }
            } else if lower == "x-ltg-token"@ {
                HeaderModel { header_token: Some(value), ..seen }
            } else if lower == "cookie"@ {
                HeaderModel { cookie_token: tokens::cookie(value, "ltg_auth"@), ..passed }
            } else if lower == "referer"@ {
                HeaderModel { referer_token: tokens::referer_token(value), ..passed }
            } else {
                passed
            }
        },
    }
}

/// What the header lines say together.
pub open spec fn fields_of(lines: Seq<Seq<char>>) -> HeaderModel
    decreases lines.len(),
{
    if lines.len() == 0 {
        no_headers()
    } else {
        with_line(fields_of(lines.drop_last()), lines.last())
    }
}

/// The element at `i`, or `default` where the sequence is too short.
pub open spec fn nth_or(pieces: Seq<Seq<char>>, i: int, default: Seq<char>) -> Seq<char> {
    if i < pieces.len() {
        pieces[i]
    } else {
        default
    }
}

/// What follows the first element.
pub open spec fn all_but_first(pieces: Seq<Seq<char>>) -> Seq<Seq<char>> {
    if pieces.len() == 0 {
        pieces
    } else {
        pieces.skip(1)
    }
}

/// The lines of a head that are not empty.
pub open spec fn head_lines(head: Seq<u8>) -> Seq<Seq<char>> {
    class::non_empty(search::split_at_all(std_calls::lossy_text(head), "\r\n"@))
}

/// A head, read: the first line that is not empty is the request line, with its method, URI and
/// version; the lines behind it are headers.
pub open spec fn head_of(head: Seq<u8>) -> HeadModel {
    let all = head_lines(head);
    let parts = class::words(nth_or(all, 0, seq![]));
    HeadModel {
        method: nth_or(parts, 0, "GET"@),
        uri: nth_or(parts, 1, "/"@),
        version: nth_or(parts, 2, "HTTP/1.1"@),
        fields: fields_of(all_but_first(all)),
    }
}

/// The element at `i`, or `default` where the list is too short.
fn nth_text(pieces: &Vec<String>, i: usize, default: &str) -> (r: String)
    ensures
        r@ == nth_or(chars::texts(pieces@), i as int, default@),
{
    if i < pieces.len() {
        pieces[i].clone()
    } else {
        default.to_owned()
    }
}

impl HeaderFields {
    /// Before any header is read.
    pub fn none() -> (r: HeaderFields)
        ensures
            r@ == no_headers(),
    {
        let r = HeaderFields {
            headers: Vec::new(),
            content_length: 0,
            user_agent: None,
            header_token: None,
            cookie_token: None,
            referer_token: None,
        };
        assert(header_list(r.headers@) =~= seq![]);
        r
    }

    /// Adds what one header line says.
    pub fn add_line(&mut self, line: &str)
        ensures
            final(self)@ == with_line(old(self)@, line@),
    {
        if let Some((raw_name, raw_value)) = split_once_by(line, CharClass::Char(':')) {
            let name = trim_space(raw_name.as_str());
            let value = trim_space(raw_value.as_str());
            let lower = to_lower(name.as_str());
            let ghost before = self.headers@;
            if same(lower.as_str(), "content-length") {
                self.content_length = match parse_usize(value.as_str()) {
                    Ok(n) => n,
                    Err(_) => 0,
                };
            } else if same(lower.as_str(), "user-agent") {
                self.user_agent = Some(value.clone());
            } else if same(lower.as_str(), "x-ltg-token") {
                self.header_token = Some(value);
                return;
            } else if same(lower.as_str(), "cookie") {
                self.cookie_token = cookie_value(value.as_str(), "ltg_auth");
            } else if same(lower.as_str(), "referer") {
                self.referer_token = token_from_referer(value.as_str());
            }
            let header = Header { name, value };
            self.headers.push(header);
            assert(header_list(self.headers@) =~= header_list(before).push(header@));
        }
    }
}

/// Reads the head of a request.
pub fn parse_head(head: &[u8]) -> (r: RequestHead)
    ensures
        r@ == head_of(head@),
{
    proof {
        reveal_strlit("\r\n");
    }
    let text = from_lossy(head);
    let all = drop_empty(split_at_each(text.as_str(), "\r\n"));
    let ghost lines = chars::texts(all@);
    let request_line = nth_text(&all, 0, "");
    proof {
        reveal_strlit("");
        assert(""@ =~= Seq::<char>::empty());
    }
    let parts = words_of(request_line.as_str());
    let mut fields = HeaderFields::none();
    let mut i: usize = 1;
    let ghost rest = all_but_first(lines);
    assert(rest.take(0) =~= Seq::<Seq<char>>::empty());
    while i < all.len()
        invariant
            lines == chars::texts(all@),
            rest == all_but_first(lines),
            1 <= i <= all@.len() || (i == 1 && all@.len() == 0),
            fields@ == fields_of(rest.take(i - 1)),
        decreases all@.len() - i,
    {
        proof {
            assert(rest.take(i as int).drop_last() =~= rest.take(i - 1));
            assert(rest.take(i as int).last() == all@[i as int]@);
        }
        fields.add_line(all[i].as_str());
        i += 1;
    }
    proof {
        assert(rest.take(i - 1) =~= rest);
    }
    RequestHead {
        method: nth_text(&parts, 0, "GET"),
        uri: nth_text(&parts, 1, "/"),
        version: nth_text(&parts, 2, "HTTP/1.1"),
        fields,
    }
}

/// The share token's own header is never among the headers that are passed on.
pub proof fn token_header_is_not_passed_on(lines: Seq<Seq<char>>)
    ensures
        forall|i: int|
            0 <= i < fields_of(lines).headers.len() ==> std_calls::lowercase(
                (#[trigger] fields_of(lines).headers[i]).0,
            ) != "x-ltg-token"@,
    decreases lines.len(),
{
    reveal_strlit("x-ltg-token");
    reveal_strlit("content-length");
    reveal_strlit("user-agent");
    if lines.len() > 0 {
        let seen = fields_of(lines.drop_last());
        token_header_is_not_passed_on(lines.drop_last());
        let now = fields_of(lines);
        assert("content-length"@.len() != "x-ltg-token"@.len());
        assert("user-agent"@.len() != "x-ltg-token"@.len());
        assert forall|i: int| 0 <= i < now.headers.len() implies std_calls::lowercase(
            (#[trigger] now.headers[i]).0,
        ) != "x-ltg-token"@ by {
            if i < seen.headers.len() {
                assert(now.headers[i] == seen.headers[i]);
            }
        }
    }
}

} // verus!

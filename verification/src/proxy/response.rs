//! The head of an upstream response: what the relay reads of it and what it adds to it.
use crate::text::chars;
use crate::text::chars::{chars_of, same, substring};
use crate::text::class;
use crate::text::class::{lines_of, split_by, split_once_by, trim_space, words_of, CharClass};
use crate::text::number;
use crate::text::number::{parse_hex_usize, to_decimal};
use crate::text::search;
use crate::text::search::{has, rfind_in, split_at_each};
use crate::text::std_calls;
use crate::text::std_calls::{from_lossy, parse_u16, parse_usize, to_lower};
use vstd::prelude::*;
use vstd::utf8;

verus! {

/// The second word of a status line, if it is a number that fits.
pub open spec fn status_in_line(line: Seq<char>) -> Option<u16> {
    let parts = class::words(line);
    if parts.len() < 2 {
        None
    } else {
        match number::decimal_up_to(parts[1], u16::MAX as nat) {
            Some(v) => Some(v as u16),
            None => None,
        }
    }
}

/// The status code in the first line of a response.
pub open spec fn status_code(response: Seq<u8>) -> Option<u16> {
    let all = class::lines(std_calls::lossy_text(response));
    if all.len() == 0 {
        None
    } else {
        status_in_line(all[0])
    }
}

/// A status code, or 200 where there is none.
pub open spec fn or_ok(status: Option<u16>) -> u16 {
    match status {
        Some(s) => s,
        None => 200,
    }
}

/// How the body of a response is delimited, as far as its headers say.
pub struct Framing {
    pub content_length: Option<nat>,
    pub chunked: bool,
}

/// What one header line of a response adds. Of several lengths the last one counts, also where it
/// is no number.
pub open spec fn framing_with(seen: Framing, line: Seq<char>) -> Framing {
    match class::split_once(line, CharClass::Char(':')) {
        None => seen,
        Some((raw_name, raw_value)) => {
            let name = std_calls::lowercase(class::trimmed(raw_name));
            let value = class::trimmed(raw_value);
            if name == "content-length"@ {
                Framing {
                    content_length: number::decimal_up_to(value, usize::MAX as nat),
                    ..seen
                }
            } else if name == "transfer-encoding"@ && search::contains(
                std_calls::lowercase(value),
                "chunked"@,
            ) {
                Framing { chunked: true, ..seen }
            } else {
                seen
            }
        },
    }
}

/// What the header lines of a response say together.
pub open spec fn framing_of(lines: Seq<Seq<char>>) -> Framing
    decreases lines.len(),
{
    if lines.len() == 0 {
        Framing { content_length: None, chunked: false }
    } else {
        framing_with(framing_of(lines.drop_last()), lines.last())
    }
}

/// The lines of a response head; the first one is the status line.
pub open spec fn response_lines(head: Seq<u8>) -> Seq<Seq<char>> {
    search::split_at_all(std_calls::lossy_text(head), "\r\n"@)
}

/// The line that hands the client the guard's cookie.
pub open spec fn cookie_line(token: Seq<char>) -> Seq<char> {
    "\r\nSet-Cookie: ltg_auth="@ + token + "; Path=/; HttpOnly; SameSite=Lax"@
}

/// A response head with the guard's cookie added in front of its last empty line; a head without
/// an empty line as it is.
pub open spec fn head_with_cookie(head: Seq<u8>, token: Seq<char>) -> Seq<u8> {
    let text = std_calls::lossy_text(head);
    match search::rfind(text, "\r\n\r\n"@) {
        Some(at) => utf8::encode_utf8(text.take(at) + cookie_line(token) + text.skip(at)),
        None => head,
    }
}

/// The size that the first line of a chunk announces, before any extension.
pub open spec fn chunk_size(line: Seq<u8>) -> Option<nat> {
    let digits = class::trimmed(class::split(std_calls::lossy_text(line), CharClass::Char(';'))[0]);
    match number::hex_value(digits) {
        Some(v) => if v <= usize::MAX {
            Some(v)
        } else {
            None
        },
        None => None,
    }
}

/// The response that a refused client is sent.
pub open spec fn error_text(status: u16, message: Seq<char>) -> Seq<char> {
    let body = message + "\n"@;
    "HTTP/1.1 "@ + number::decimal(status as nat)
        + " ERROR\r\nContent-Type: text/plain; charset=utf-8\r\nContent-Length: "@
        + number::decimal(chars::size(body)) + "\r\nConnection: close\r\n\r\n"@ + body
}

/// The second word of a status line, if it is a number that fits.
fn parse_status_line(line: &str) -> (r: Option<u16>)
    ensures
        r == status_in_line(line@),
{
    let parts = words_of(line);
    if parts.len() < 2 {
        return None;
    }
    assert(chars::texts(parts@)[1] == parts@[1]@);
    match parse_u16(parts[1].as_str()) {
        Ok(v) => Some(v),
        Err(_) => None,
    }
}

/// The status code in the first line of a response.
pub fn parse_status_code(response: &[u8]) -> (r: Option<u16>)
    ensures
        r == status_code(response@),
{
    let text = from_lossy(response);
    let all = lines_of(text.as_str());
    if all.len() == 0 {
        return None;
    }
    assert(chars::texts(all@)[0] == all@[0]@);
    parse_status_line(all[0].as_str())
}

/// The status code of a response head, 200 where it has none; the length that it announces; and
/// whether its body comes in chunks.
pub fn parse_response_metadata(response_head: &[u8]) -> (r: (u16, Option<usize>, bool))
    ensures
        r.0 == or_ok(status_in_line(response_lines(response_head@)[0])),
        framing_of(response_lines(response_head@).skip(1)) == (Framing {
            content_length: match r.1 {
                Some(n) => Some(n as nat),
                None => None,
            },
            chunked: r.2,
        }),
{
    proof {
        reveal_strlit("\r\n");
    }
    let text = from_lossy(response_head);
    let all = split_at_each(text.as_str(), "\r\n");
    let ghost lines = chars::texts(all@);
    let ghost rest = lines.skip(1);
    assert(lines.len() > 0);
    assert(lines[0] == all@[0]@);
    let status = match parse_status_line(all[0].as_str()) {
        Some(s) => s,
        None => 200,
    };
    let mut content_length: Option<usize> = None;
    let mut chunked = false;
    let mut i: usize = 1;
    assert(rest.take(0) =~= Seq::<Seq<char>>::empty());
    while i < all.len()
        invariant
            lines == chars::texts(all@),
            rest == lines.skip(1),
            1 <= i <= all@.len(),
            framing_of(rest.take(i - 1)) == (Framing {
                content_length: match content_length {
                    Some(n) => Some(n as nat),
                    None => None,
                },
                chunked,
            }),
        decreases all@.len() - i,
    {
        proof {
            assert(rest.take(i as int).drop_last() =~= rest.take(i - 1));
            assert(rest.take(i as int).last() == all@[i as int]@);
        }
        if let Some((raw_name, raw_value)) = split_once_by(all[i].as_str(), CharClass::Char(':')) {
            let name = to_lower(trim_space(raw_name.as_str()).as_str());
            let value = trim_space(raw_value.as_str());
            if same(name.as_str(), "content-length") {
                content_length = match parse_usize(value.as_str()) {
                    Ok(n) => Some(n),
                    Err(_) => None,
                };
            } else if same(name.as_str(), "transfer-encoding") && has(
                to_lower(value.as_str()).as_str(),
                "chunked",
            ) {
                chunked = true;
            }
        }
        i += 1;
    }
    assert(rest.take(i - 1) =~= rest);
    (status, content_length, chunked)
}

/// Adds the guard's cookie to a response head.
pub fn inject_auth_cookie(response_head: &[u8], token: &str) -> (r: Vec<u8>)
    ensures
        r@ == head_with_cookie(response_head@, token@),
{
    let text = from_lossy(response_head);
    let chars = chars_of(text.as_str());
    let marker = chars_of("\r\n\r\n");
    match rfind_in(chars.as_slice(), marker.as_slice()) {
        Some(at) => {
            let front = substring(chars.as_slice(), 0, at);
            let back = substring(chars.as_slice(), at, chars.len());
            assert(front@ =~= text@.take(at as int));
            assert(back@ =~= text@.skip(at as int));
            let mut line = "\r\nSet-Cookie: ltg_auth=".to_owned().concat(token).concat(
                "; Path=/; HttpOnly; SameSite=Lax",
            );
            line.append(back.as_str());
            let whole = front.concat(line.as_str());
            assert(whole@ =~= text@.take(at as int) + cookie_line(token@) + text@.skip(at as int));
            whole.as_str().as_bytes_vec()
        },
        None => vstd::slice::slice_to_vec(response_head),
    }
}

/// The size that the first line of a chunk announces.
pub fn parse_chunk_size(size_line: &[u8]) -> (r: Option<usize>)
    ensures
        match r {
            Some(n) => chunk_size(size_line@) == Some(n as nat),
            None => chunk_size(size_line@) is None,
        },
{
    let text = from_lossy(size_line);
    let parts = split_by(text.as_str(), CharClass::Char(';'));
    assert(chars::texts(parts@).len() > 0);
    assert(chars::texts(parts@)[0] == parts@[0]@);
    let digits = trim_space(parts[0].as_str());
    parse_hex_usize(digits.as_str())
}

/// Writes the response that a refused client is sent.
pub fn error_response(status_code: u16, message: &str) -> (r: String)
    ensures
        r@ == error_text(status_code, message@),
{
    let body = message.to_owned().concat("\n");
    let size = chars::size_of(body.as_str());
    let r = "HTTP/1.1 ".to_owned().concat(to_decimal(status_code as u64).as_str()).concat(
        " ERROR\r\nContent-Type: text/plain; charset=utf-8\r\nContent-Length: ",
    ).concat(to_decimal(size as u64).as_str()).concat("\r\nConnection: close\r\n\r\n").concat(
        body.as_str(),
    );
    r
}

} // verus!

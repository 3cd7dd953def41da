//! The response value and its wire form.

use crate::http::{StatusCode, Version};
use crate::string_map::{put, StringMap};
use crate::text::{decimal, to_decimal};
use vstd::prelude::*;
use vstd::utf8::encode_utf8;

verus! {

/// `chrono::Utc::now`, formatted by `DateTime::format` as an HTTP date
/// (`Tue, 03 Mar 2026 10:00:00 GMT`). The text depends on the clock, so
/// nothing is claimed of it.
#[verifier::external_body]
fn http_date_now() -> (date: String) {
    format!("{}", chrono::Utc::now().format("%a, %d %b %Y %H:%M:%S GMT"))
}

/// What a response holds, as plain mathematical values. `headers` lists
/// the header fields in the order in which they go on the wire.
pub struct ResponseView {
    pub version: Version,
    pub status_code: StatusCode,
    pub headers: Seq<(Seq<char>, Seq<char>)>,
    pub body: Seq<u8>,
}

/// The first line of a response.
pub open spec fn status_line(version: Version, status_code: StatusCode) -> Seq<char> {
    version.text() + seq![' '] + decimal(status_code.number()) + seq![' '] + status_code.reason()
        + seq!['\r', '\n']
}

/// One header field as a line.
pub open spec fn header_line(name: Seq<char>, value: Seq<char>) -> Seq<char> {
    name + seq![':', ' '] + value + seq!['\r', '\n']
}

/// The header fields as lines, in order.
pub open spec fn header_block(headers: Seq<(Seq<char>, Seq<char>)>) -> Seq<u8>
    decreases headers.len(),
{
    if headers.len() == 0 {
        Seq::empty()
    } else {
        header_block(headers.drop_last()) + encode_utf8(
            header_line(headers.last().0, headers.last().1),
        )
    }
}

/// The bytes that stand for a response on the wire: status line, header
/// lines, an empty line, then the body as it is.
pub open spec fn wire(r: ResponseView) -> Seq<u8> {
    encode_utf8(status_line(r.version, r.status_code)) + header_block(r.headers) + seq![
        13u8,
        10u8,
    ] + r.body
}

/// The header fields of a response that was just made with `date`.
pub open spec fn fresh_headers(date: Seq<char>) -> Seq<(Seq<char>, Seq<char>)> {
    seq![("Server"@, "RustHTTP/0.1"@), ("Date"@, date)]
}

/// One response. Set the body through `set_body`, which keeps
/// `Content-Length` equal to the length of the body.
#[derive(Debug)]
pub struct Response {
    pub version: Version,
    pub status_code: StatusCode,
    pub headers: StringMap,
    pub body: Vec<u8>,
}

impl View for Response {
    type V = ResponseView;

    open spec fn view(&self) -> ResponseView {
        ResponseView {
            version: self.version,
            status_code: self.status_code,
            headers: self.headers.pairs(),
            body: self.body@,
        }
    }
}

impl Response {
    /// The header fields as a map.
    pub open spec fn header_map(&self) -> Map<Seq<char>, Seq<char>> {
        self.headers@
    }

    /// `Content-Length`, where it is present, is the length of the body.
    pub open spec fn length_agrees(&self) -> bool {
        self.headers@.contains_key("Content-Length"@) ==> self.headers@["Content-Length"@]
            == decimal(self.body@.len())
    }

    /// A response with the given status and date, version 1.1, a `Server`
    /// header and an empty body.
    pub fn with_date(status_code: StatusCode, date: String) -> (r: Response)
        ensures
            r@ == (ResponseView {
                version: Version::HTTP1_1,
                status_code,
                headers: fresh_headers(date@),
                body: Seq::empty(),
            }),
            r.length_agrees(),
    {
        let mut headers = StringMap::new();
        headers.insert("Server".to_string(), "RustHTTP/0.1".to_string());
        headers.insert("Date".to_string(), date);
        proof {
            reveal_strlit("Server");
            reveal_strlit("Date");
            reveal_strlit("Content-Length");
            let empty = Seq::<(Seq<char>, Seq<char>)>::empty();
            let one = put(empty, "Server"@, "RustHTTP/0.1"@);
            assert(one =~= seq![("Server"@, "RustHTTP/0.1"@)]);
            assert("Server"@ != "Date"@) by {
                assert("Server"@.len() != "Date"@.len());
            }
            crate::string_map::lemma_first_index_of(one, "Date"@, 1);
            assert(put(one, "Date"@, date@) =~= fresh_headers(date@));
            assert("Server"@.len() != "Content-Length"@.len());
            assert("Date"@.len() != "Content-Length"@.len());
            assert(!headers@.contains_key("Content-Length"@));
        }
        Response { version: Version::HTTP1_1, status_code, headers, body: Vec::new() }
    }

    /// A response with the given status, stamped with the current time.
    pub fn new(status_code: StatusCode) -> (r: Response)
        ensures
            r@.version == Version::HTTP1_1,
            r@.status_code == status_code,
            r@.body == Seq::<u8>::empty(),
            exists|date: Seq<char>| r@.headers == fresh_headers(date),
            r.length_agrees(),
    {
        let date = http_date_now();
        Response::with_date(status_code, date)
    }

    /// Replaces the body and sets `Content-Length` to its length.
    pub fn set_body(&mut self, body: Vec<u8>)
        ensures
            final(self)@ == (ResponseView {
                headers: put(old(self)@.headers, "Content-Length"@, decimal(body@.len())),
                body: body@,
                ..old(self)@
            }),
            final(self).header_map() == old(self).header_map().insert(
                "Content-Length"@,
                decimal(body@.len()),
            ),
            final(self).length_agrees(),
    {
        let length = to_decimal(body.len());
        self.body = body;
        self.headers.insert("Content-Length".to_string(), length);
    }

    /// Sets the `Content-Type` header.
    pub fn set_content_type(&mut self, content_type: &str)
        ensures
            final(self)@ == (ResponseView {
                headers: put(old(self)@.headers, "Content-Type"@, content_type@),
                ..old(self)@
            }),
            final(self).header_map() == old(self).header_map().insert(
                "Content-Type"@,
                content_type@,
            ),
            old(self).length_agrees() ==> final(self).length_agrees(),
    {
        proof {
            reveal_strlit("Content-Type");
            reveal_strlit("Content-Length");
            assert("Content-Type"@.len() != "Content-Length"@.len());
        }
        self.headers.insert("Content-Type".to_string(), content_type.to_string());
    }

    /// Sets the header `name` to `value`.
    pub fn set_header(&mut self, name: &str, value: &str)
        ensures
            final(self)@ == (ResponseView {
                headers: put(old(self)@.headers, name@, value@),
                ..old(self)@
            }),
            final(self).header_map() == old(self).header_map().insert(name@, value@),
    {
        self.headers.insert(name.to_string(), value.to_string());
    }

    /// The response as it goes on the wire.
    pub fn to_bytes(&self) -> (out: Vec<u8>)
        ensures
            out@ == wire(self@),
    {
        let mut out: Vec<u8> = Vec::new();
        let mut line = String::new();
        line.append(self.version.as_str());
        line.push(' ');
        line.append(to_decimal(self.status_code.code() as usize).as_str());
        line.push(' ');
        line.append(self.status_code.reason_phrase());
        line.push('\r');
        line.push('\n');
        assert(line@ =~= status_line(self.version, self.status_code));
        append_bytes(&mut out, line.as_str().as_bytes());
        let ghost head = out@;
        let n: usize = self.headers.len();
        let mut i: usize = 0;
        while i < n
            invariant
                i <= n,
                n == self.headers.pairs().len(),
                out@ == head + header_block(self.headers.pairs().take(i as int)),
            decreases n - i,
        {
            let mut field = String::new();
            field.append(self.headers.key_at(i).as_str());
            field.push(':');
            field.push(' ');
            field.append(self.headers.value_at(i).as_str());
            field.push('\r');
            field.push('\n');
            proof {
                let pairs = self.headers.pairs();
                assert(field@ =~= header_line(pairs[i as int].0, pairs[i as int].1));
                assert(pairs.take(i + 1).drop_last() == pairs.take(i as int));
                assert(pairs.take(i + 1).last() == pairs[i as int]);
            }
            append_bytes(&mut out, field.as_str().as_bytes());
            i += 1;
        }
        assert(self.headers.pairs().take(n as int) == self.headers.pairs());
        out.push(13u8);
        out.push(10u8);
        let ghost before_body = out@;
        assert(before_body =~= head + header_block(self.headers.pairs()) + seq![13u8, 10u8]);
        append_bytes(&mut out, self.body.as_slice());
        out
    }
}

impl Clone for Response {
    fn clone(&self) -> (r: Self)
        ensures
            r@ == self@,
            r.header_map() == self.header_map(),
    {
        Response {
            version: self.version,
            status_code: self.status_code,
            headers: self.headers.clone(),
            body: self.body.clone(),
        }
    }
}

/// Appends `bytes` to `out`.
pub fn append_bytes(out: &mut Vec<u8>, bytes: &[u8])
    ensures
        final(out)@ == old(out)@ + bytes@,
{
    out.extend_from_slice(bytes);
    assert(out@ =~= old(out)@ + bytes@);
}

} // verus!

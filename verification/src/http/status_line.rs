//! Reading the status line back from the wire form of a response.

use crate::http::response::{header_block, status_line, wire, Response, ResponseView};
use crate::http::{StatusCode, Version};
use crate::string_map::{distinct_keys, lemma_map_of_at, map_of};
use crate::text::{decimal, digit};
use vstd::prelude::*;
use vstd::utf8::{encode_utf8, is_ascii_chars, is_ascii_chars_encode_utf8};

verus! {

/// What the first line of a response says.
pub struct StatusLine {
    pub version: Seq<u8>,
    pub code: nat,
    pub reason: Seq<u8>,
}

/// Position of the first carriage return that a line feed follows, or the
/// length where there is none.
pub open spec fn line_end(bytes: Seq<u8>) -> int
    decreases bytes.len(),
{
    if bytes.len() < 2 {
        bytes.len() as int
    } else if bytes[0] == 13 && bytes[1] == 10 {
        0
    } else {
        1 + line_end(bytes.drop_first())
    }
}

/// Position of the first `b`, or the length where there is none.
pub open spec fn first_byte(bytes: Seq<u8>, b: u8) -> int
    decreases bytes.len(),
{
    if bytes.len() == 0 {
        0
    } else if bytes[0] == b {
        0
    } else {
        1 + first_byte(bytes.drop_first(), b)
    }
}

/// The number that a non-empty run of decimal digits stands for.
pub open spec fn number(digits: Seq<u8>) -> Option<nat>
    decreases digits.len(),
{
    if digits.len() == 0 {
        None
    } else if !(48 <= digits.last() <= 57) {
        None
    } else if digits.len() == 1 {
        Some((digits.last() - 48) as nat)
    } else {
        match number(digits.drop_last()) {
            Some(high) => Some(high * 10 + (digits.last() - 48) as nat),
            None => None,
        }
    }
}

/// Reads the status line of a serialised response: the version up to the
/// first space, the code up to the second, the reason phrase up to the end
/// of the line.
pub open spec fn read_status_line(bytes: Seq<u8>) -> Option<StatusLine> {
    let line = bytes.take(line_end(bytes));
    let a = first_byte(line, 32);
    let rest = line.skip(a + 1);
    let b = first_byte(rest, 32);
    if a < line.len() && b < rest.len() {
        match number(rest.take(b)) {
            Some(code) => Some(StatusLine { version: line.take(a), code, reason: rest.skip(b + 1) }),
            None => None,
        }
    } else {
        None
    }
}

/// Every character is a visible ASCII character or a space.
pub open spec fn is_phrase(s: Seq<char>) -> bool {
    forall|i: int| 0 <= i < s.len() ==> ' ' <= #[trigger] s[i] <= '~'
}

/// Every character is a visible ASCII character.
pub open spec fn is_token(s: Seq<char>) -> bool {
    forall|i: int| 0 <= i < s.len() ==> '!' <= #[trigger] s[i] <= '~'
}

proof fn lemma_version_is_token(version: Version)
    ensures
        is_token(version.text()),
{
    reveal_strlit("HTTP/1.0");
    reveal_strlit("HTTP/1.1");
    reveal_strlit("HTTP/2.0");
    reveal_strlit("UNKNOWN");
}

proof fn lemma_reason_is_phrase(status_code: StatusCode)
    ensures
        is_phrase(status_code.reason()),
{
    reveal_strlit("OK");
    reveal_strlit("Created");
    reveal_strlit("Accepted");
    reveal_strlit("No Content");
    reveal_strlit("Bad Request");
    reveal_strlit("Unauthorized");
    reveal_strlit("Forbidden");
    reveal_strlit("Not Found");
    reveal_strlit("Method Not Allowed");
    reveal_strlit("Internal Server Error");
    reveal_strlit("Not Implemented");
    reveal_strlit("Bad Gateway");
    reveal_strlit("Service Unavailable");
}

/// The bytes of a decimal numeral are digits, and read back as the number.
proof fn lemma_decimal_reads_back(n: nat)
    ensures
        is_token(decimal(n)),
        is_ascii_chars(decimal(n)),
        number(encode_utf8(decimal(n))) == Some(n),
        forall|i: int| 0 <= i < decimal(n).len() ==> '0' <= #[trigger] decimal(n)[i] <= '9',
    decreases n,
{
    let d = decimal(n);
    if n >= 10 {
        lemma_decimal_reads_back(n / 10);
        let high = decimal(n / 10);
        assert(d == high.push(digit(n % 10)));
        assert forall|i: int| 0 <= i < d.len() implies '0' <= #[trigger] d[i] <= '9' by {
            if i < high.len() {
                assert(d[i] == high[i]);
            }
        }
        assert(is_ascii_chars(d));
        is_ascii_chars_encode_utf8(d);
        is_ascii_chars_encode_utf8(high);
        assert(encode_utf8(d).drop_last() =~= encode_utf8(high));
        assert(encode_utf8(d).last() == d[d.len() - 1] as u8);
        assert((digit(n % 10) as u8 - 48) as nat == n % 10);
    } else {
        assert(d =~= seq![digit(n)]);
        assert(is_ascii_chars(d));
        is_ascii_chars_encode_utf8(d);
        assert(encode_utf8(d).last() == d[0] as u8);
        assert((digit(n) as u8 - 48) as nat == n);
    }
}

/// A line without a carriage return ends where the first CR LF after it stands.
proof fn lemma_line_end(line: Seq<u8>, tail: Seq<u8>)
    requires
        forall|i: int| 0 <= i < line.len() ==> line[i] != 13,
    ensures
        line_end(line + seq![13u8, 10u8] + tail) == line.len(),
    decreases line.len(),
{
    let all = line + seq![13u8, 10u8] + tail;
    if line.len() > 0 {
        assert(all[0] == line[0]);
        assert(all.drop_first() =~= line.drop_first() + seq![13u8, 10u8] + tail);
        assert forall|i: int| 0 <= i < line.drop_first().len() implies line.drop_first()[i]
            != 13 by {
            assert(line.drop_first()[i] == line[i + 1]);
        }
        lemma_line_end(line.drop_first(), tail);
    } else {
        assert(all[0] == 13 && all[1] == 10);
    }
}

/// The first `b` after a prefix without `b` stands right after the prefix.
proof fn lemma_first_byte(front: Seq<u8>, b: u8, back: Seq<u8>)
    requires
        forall|i: int| 0 <= i < front.len() ==> front[i] != b,
    ensures
        first_byte(front + seq![b] + back, b) == front.len(),
    decreases front.len(),
{
    let all = front + seq![b] + back;
    if front.len() > 0 {
        assert(all[0] == front[0]);
        assert(all.drop_first() =~= front.drop_first() + seq![b] + back);
        assert forall|i: int| 0 <= i < front.drop_first().len() implies front.drop_first()[i]
            != b by {
            assert(front.drop_first()[i] == front[i + 1]);
        }
        lemma_first_byte(front.drop_first(), b, back);
    } else {
        assert(all[0] == b);
    }
}

/// Reading the status line of a serialised response gives back the
/// version, the numeric code and the reason phrase that went in.
pub proof fn lemma_status_line_round_trip(r: ResponseView)
    ensures
        read_status_line(wire(r)) == Some(
            StatusLine {
                version: encode_utf8(r.version.text()),
                code: r.status_code.number(),
                reason: encode_utf8(r.status_code.reason()),
            },
        ),
{
    let v = r.version.text();
    let d = decimal(r.status_code.number());
    let p = r.status_code.reason();
    lemma_version_is_token(r.version);
    lemma_reason_is_phrase(r.status_code);
    lemma_decimal_reads_back(r.status_code.number());
    let text = status_line(r.version, r.status_code);
    assert(text =~= v + seq![' '] + d + seq![' '] + p + seq!['\r', '\n']);
    assert(is_ascii_chars(v));
    assert(is_ascii_chars(p));
    assert(is_ascii_chars(text));
    is_ascii_chars_encode_utf8(v);
    is_ascii_chars_encode_utf8(d);
    is_ascii_chars_encode_utf8(p);
    is_ascii_chars_encode_utf8(text);
    let vb = encode_utf8(v);
    let db = encode_utf8(d);
    let pb = encode_utf8(p);
    let line = vb + seq![32u8] + db + seq![32u8] + pb;
    assert(encode_utf8(text) =~= line + seq![13u8, 10u8]);
    let tail = header_block(r.headers) + seq![13u8, 10u8] + r.body;
    let all = wire(r);
    assert(all =~= line + seq![13u8, 10u8] + tail);
    assert forall|i: int| 0 <= i < line.len() implies line[i] != 13 by {
        if i < vb.len() {
            assert(line[i] == v[i] as u8);
        } else if i == vb.len() {
        } else if i < vb.len() + 1 + db.len() {
            assert(line[i] == d[i - vb.len() - 1] as u8);
        } else if i == vb.len() + 1 + db.len() {
        } else {
            assert(line[i] == p[i - vb.len() - db.len() - 2] as u8);
        }
    }
    lemma_line_end(line, tail);
    assert(all.take(line.len() as int) =~= line);
    assert forall|i: int| 0 <= i < vb.len() implies vb[i] != 32 by {
        assert(vb[i] == v[i] as u8);
    }
    assert(line =~= vb + seq![32u8] + (db + seq![32u8] + pb));
    lemma_first_byte(vb, 32, db + seq![32u8] + pb);
    let rest = line.skip(vb.len() as int + 1);
    assert(rest =~= db + seq![32u8] + pb);
    assert forall|i: int| 0 <= i < db.len() implies db[i] != 32 by {
        assert(db[i] == d[i] as u8);
    }
    lemma_first_byte(db, 32, pb);
    assert(rest.take(db.len() as int) =~= db);
    assert(rest.skip(db.len() as int + 1) =~= pb);
    assert(line.take(vb.len() as int) =~= vb);
}

/// With `Content-Length` in agreement, the header line that carries it on
/// the wire states the length of the body, and the body is what the wire
/// form ends with.
pub proof fn lemma_content_length_on_wire(r: &Response, i: int)
    requires
        r.length_agrees(),
        distinct_keys(r@.headers),
        0 <= i < r@.headers.len(),
        r@.headers[i].0 == "Content-Length"@,
    ensures
        r@.headers[i].1 == decimal(r@.body.len()),
        wire(r@).len() >= r@.body.len(),
        wire(r@).skip(wire(r@).len() - r@.body.len()) == r@.body,
{
    r.headers.lemma_view();
    lemma_map_of_at(r@.headers, i);
    let head = encode_utf8(status_line(r@.version, r@.status_code)) + header_block(r@.headers)
        + seq![13u8, 10u8];
    assert(wire(r@) =~= head + r@.body);
    assert((head + r@.body).skip(head.len() as int) =~= r@.body);
}

} // verus!

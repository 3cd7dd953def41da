//! The request parser: from the bytes of one request to a `Request`.

use crate::http::request::{Request, RequestView};
use crate::http::{method_named, version_named, Method, Version};
use crate::string_map::StringMap;
use crate::text::{
    chars_of, find_from, first_index, lines, lines_of, split, split_range, substring, trim,
    trimmed, uppercase, views, words, words_of,
};
use vstd::prelude::*;
use vstd::utf8::encode_utf8;

verus! {

/// What `String::from_utf8_lossy` makes of a byte sequence.
pub uninterp spec fn utf8_lossy(bytes: Seq<u8>) -> Seq<char>;

/// `String::from_utf8_lossy` of the standard library: the text that the
/// bytes encode, each ill-formed part replaced by U+FFFD. The result
/// depends on the bytes alone.
#[verifier::external_body]
fn decode_lossy(raw: &[u8]) -> (text: String)
    ensures
        text@ == utf8_lossy(raw@),
{
    String::from_utf8_lossy(raw).into_owned()
}

/// The empty line that ends the header block stands at `i`.
pub open spec fn separator_at(text: Seq<char>, i: int) -> bool {
    &&& 0 <= i
    &&& i + 4 <= text.len()
    &&& text[i] == '\r'
    &&& text[i + 1] == '\n'
    &&& text[i + 2] == '\r'
    &&& text[i + 3] == '\n'
}

/// The first position at or after `from` at which the separator stands.
pub open spec fn find_separator(text: Seq<char>, from: int) -> Option<int>
    decreases text.len() - from,
{
    if from < 0 || from + 4 > text.len() {
        None
    } else if separator_at(text, from) {
        Some(from)
    } else {
        find_separator(text, from + 1)
    }
}

/// The map that results from inserting the pairs in order, so that the
/// last value given for a key is the one that stays.
pub open spec fn collect(pairs: Seq<(Seq<char>, Seq<char>)>) -> Map<Seq<char>, Seq<char>>
    decreases pairs.len(),
{
    if pairs.len() == 0 {
        Map::empty()
    } else {
        collect(pairs.drop_last()).insert(pairs.last().0, pairs.last().1)
    }
}

/// One piece of a query string: key and value stand on either side of the
/// first `=`; a piece without `=` is a key with an empty value.
pub open spec fn query_pair(piece: Seq<char>) -> (Seq<char>, Seq<char>) {
    let i = first_index(piece, '=');
    if 0 <= i < piece.len() {
        (piece.take(i), piece.skip(i + 1))
    } else {
        (piece, Seq::empty())
    }
}

/// The pairs of a query string, which `&` separates.
pub open spec fn query_pairs(query: Seq<char>) -> Seq<(Seq<char>, Seq<char>)> {
    let pieces = split(query, '&');
    Seq::new(pieces.len(), |i: int| query_pair(pieces[i]))
}

/// The path of a request target: what stands before the first `?`.
pub open spec fn target_path(target: Seq<char>) -> Seq<char> {
    let i = first_index(target, '?');
    if 0 <= i < target.len() {
        target.take(i)
    } else {
        target
    }
}

/// The query parameters of a request target: those of what follows the
/// first `?`, none where there is no `?`.
pub open spec fn target_query(target: Seq<char>) -> Map<Seq<char>, Seq<char>> {
    let i = first_index(target, '?');
    if 0 <= i < target.len() {
        collect(query_pairs(target.skip(i + 1)))
    } else {
        Map::empty()
    }
}

/// One header line: name and value stand on either side of the first
/// colon, each without the white space around it. A line without a colon
/// is no header field.
pub open spec fn header_field(line: Seq<char>) -> Option<(Seq<char>, Seq<char>)> {
    let i = first_index(line, ':');
    if 0 <= i < line.len() {
        Some((trim(line.take(i)), trim(line.skip(i + 1))))
    } else {
        None
    }
}

/// The header fields of a sequence of lines; a later line wins over an
/// earlier one of the same name.
pub open spec fn header_map(lines: Seq<Seq<char>>) -> Map<Seq<char>, Seq<char>>
    decreases lines.len(),
{
    if lines.len() == 0 {
        Map::empty()
    } else {
        match header_field(lines.last()) {
            Some((name, value)) => header_map(lines.drop_last()).insert(name, value),
            None => header_map(lines.drop_last()),
        }
    }
}

/// The request that a text stands for, or the reason why it stands for none.
pub open spec fn parse_request(text: Seq<char>) -> Result<RequestView, Seq<char>> {
    match find_separator(text, 0) {
        None => Err("Invalid request format"@),
        Some(end) => {
            let head = lines(text.take(end));
            if head.len() == 0 {
                Err("Missing request line"@)
            } else {
                let tokens = words(head[0]);
                if tokens.len() == 0 {
                    Err("Missing method"@)
                } else if tokens.len() == 1 {
                    Err("Missing path"@)
                } else if tokens.len() == 2 {
                    Err("Missing HTTP version"@)
                } else {
                    match method_named(uppercase(tokens[0])) {
                        None => Err("Invalid method"@),
                        Some(method) => Ok(
                            RequestView {
                                method,
                                path: target_path(tokens[1]),
                                version: version_named(tokens[2]),
                                headers: header_map(head.skip(1)),
                                body: encode_utf8(text.skip(end + 4)),
                                params: Map::empty(),
                                query: target_query(tokens[1]),
                            },
                        ),
                    }
                }
            }
        },
    }
}

/// Finds the empty line that ends the header block.
pub fn separator_index(chars: &Vec<char>) -> (r: Option<usize>)
    ensures
        match r {
            Some(i) => find_separator(chars@, 0) == Some(i as int) && i + 4 <= chars.len(),
            None => find_separator(chars@, 0) is None,
        },
{
    let n: usize = chars.len();
    let mut i: usize = 0;
    while n >= 4 && i <= n - 4
        invariant
            n == chars.len(),
            i <= n,
            find_separator(chars@, 0) == find_separator(chars@, i as int),
        decreases n - i,
    {
        if chars[i] == '\r' && chars[i + 1] == '\n' && chars[i + 2] == '\r' && chars[i + 3]
            == '\n' {
            return Some(i);
        }
        i += 1;
    }
    None
}

/// The query parameters of a query string.
pub fn parse_query(chars: &Vec<char>, from: usize, to: usize) -> (query: StringMap)
    requires
        from <= to <= chars.len(),
    ensures
        query@ == collect(query_pairs(chars@.subrange(from as int, to as int))),
{
    let pieces = split_range(chars, from, to, '&');
    let ghost pairs = query_pairs(chars@.subrange(from as int, to as int));
    let mut query = StringMap::new();
    let mut i: usize = 0;
    while i < pieces.len()
        invariant
            i <= pieces.len(),
            pairs.len() == pieces.len(),
            forall|k: int| 0 <= k < pieces.len() ==> pairs[k] == query_pair(pieces@[k]@),
            query@ == collect(pairs.take(i as int)),
        decreases pieces.len() - i,
    {
        let piece = chars_of(pieces[i].as_str());
        let m: usize = piece.len();
        let eq = find_from(&piece, 0, '=');
        proof {
            assert(piece@.skip(0) == piece@);
            assert(pairs.take(i + 1).drop_last() == pairs.take(i as int));
            assert(pairs.take(i + 1).last() == pairs[i as int]);
        }
        if eq < m {
            let key = substring(&piece, 0, eq);
            let value = substring(&piece, eq + 1, m);
            assert(piece@.take(eq as int) == piece@.subrange(0, eq as int));
            assert(piece@.skip(eq + 1) == piece@.subrange(eq + 1, m as int));
            query.insert(key, value);
        } else {
            let key = substring(&piece, 0, m);
            assert(piece@ == piece@.subrange(0, m as int));
            query.insert(key, String::new());
        }
        i += 1;
    }
    assert(pairs.take(pieces.len() as int) == pairs);
    query
}

/// The header fields of `lines[from..]`.
pub fn parse_headers(lines: &Vec<String>, from: usize) -> (headers: StringMap)
    requires
        from <= lines.len(),
    ensures
        headers@ == header_map(views(lines@).skip(from as int)),
{
    let ghost all = views(lines@).skip(from as int);
    let mut headers = StringMap::new();
    let mut i: usize = from;
    assert(all.take(0) =~= Seq::<Seq<char>>::empty());
    while i < lines.len()
        invariant
            from <= i <= lines.len(),
            all == views(lines@).skip(from as int),
            headers@ == header_map(all.take(i - from)),
        decreases lines.len() - i,
    {
        let line = chars_of(lines[i].as_str());
        let m: usize = line.len();
        let colon = find_from(&line, 0, ':');
        proof {
            assert(line@.skip(0) == line@);
            assert(all.take(i - from + 1).drop_last() == all.take(i - from));
            assert(all.take(i - from + 1).last() == line@);
        }
        if colon < m {
            let name = trimmed(&line, 0, colon);
            let value = trimmed(&line, colon + 1, m);
            assert(line@.take(colon as int) == line@.subrange(0, colon as int));
            assert(line@.skip(colon + 1) == line@.subrange(colon + 1, m as int));
            headers.insert(name, value);
        }
        i += 1;
    }
    assert(all.take(lines.len() - from) == all);
    headers
}

/// Parses the text of one request.
pub fn parse_text(text: &str) -> (r: Result<Request, String>)
    ensures
        match r {
            Ok(request) => parse_request(text@) == Ok::<RequestView, Seq<char>>(request@),
            Err(reason) => parse_request(text@) == Err::<RequestView, Seq<char>>(reason@),
        },
{
    let chars = chars_of(text);
    let n: usize = chars.len();
    let end = match separator_index(&chars) {
        Some(end) => end,
        None => {
            return Err("Invalid request format".to_string());
        },
    };
    assert(chars@.take(end as int) == chars@.subrange(0, end as int));
    let head = lines_of(&chars, 0, end);
    if head.len() == 0 {
        return Err("Missing request line".to_string());
    }
    let tokens = words_of(head[0].as_str());
    assert(views(head@)[0] == head@[0]@);
    if tokens.len() == 0 {
        return Err("Missing method".to_string());
    }
    if tokens.len() == 1 {
        return Err("Missing path".to_string());
    }
    if tokens.len() == 2 {
        return Err("Missing HTTP version".to_string());
    }
    assert(views(tokens@)[0] == tokens@[0]@);
    assert(views(tokens@)[1] == tokens@[1]@);
    assert(views(tokens@)[2] == tokens@[2]@);
    let method = match Method::lookup(tokens[0].as_str()) {
        Some(method) => method,
        None => {
            return Err("Invalid method".to_string());
        },
    };
    let target = chars_of(tokens[1].as_str());
    let m: usize = target.len();
    let mark = find_from(&target, 0, '?');
    assert(target@.skip(0) == target@);
    let path = substring(&target, 0, mark);
    let query = if mark < m {
        assert(target@.take(mark as int) == target@.subrange(0, mark as int));
        assert(target@.skip(mark + 1) == target@.subrange(mark + 1, m as int));
        parse_query(&target, mark + 1, m)
    } else {
        assert(target@ == target@.subrange(0, mark as int));
        StringMap::new()
    };
    let version = Version::from(tokens[2].as_str());
    let headers = parse_headers(&head, 1);
    let rest = substring(&chars, end + 4, n);
    assert(chars@.skip(end + 4) == chars@.subrange(end + 4, n as int));
    let body = rest.as_str().as_bytes_vec();
    Ok(Request { method, path, version, headers, body, params: StringMap::new(), query })
}

/// Parses the bytes of one request. Bytes that are not UTF-8 are replaced,
/// not refused.
pub fn parse(raw: &[u8]) -> (r: Result<Request, String>)
    ensures
        match r {
            Ok(request) => parse_request(utf8_lossy(raw@)) == Ok::<RequestView, Seq<char>>(
                request@,
            ),
            Err(reason) => parse_request(utf8_lossy(raw@)) == Err::<RequestView, Seq<char>>(
                reason@,
            ),
        },
{
    let text = decode_lossy(raw);
    parse_text(text.as_str())
}

impl Request {
    /// Parses the bytes of one request, as `parse` does.
    pub fn parse(raw: &[u8]) -> (r: Result<Request, String>)
        ensures
            match r {
                Ok(request) => parse_request(utf8_lossy(raw@)) == Ok::<RequestView, Seq<char>>(
                    request@,
                ),
                Err(reason) => parse_request(utf8_lossy(raw@)) == Err::<RequestView, Seq<char>>(
                    reason@,
                ),
            },
    {
        parse(raw)
    }
}

} // verus!

//! Character-level helpers shared by the parser and the route matcher.

use vstd::prelude::*;

verus! {

/// `String::push` of the standard library: appends one character to the end
/// of the string and leaves the rest as it was.
pub assume_specification[ String::push ](s: &mut String, ch: char)
    ensures
        final(s)@ == old(s)@.push(ch),
;

/// The characters of `s`, as an indexable vector.
pub fn chars_of(s: &str) -> (v: Vec<char>)
    ensures
        v@ == s@,
{
    let mut v: Vec<char> = Vec::new();
    for c in it: s.chars()
        invariant
            v@ == it.seq().take(it.index() as int),
    {
        v.push(c);
    }
    v
}

/// The string made of `chars[from..to]`.
pub fn substring(chars: &Vec<char>, from: usize, to: usize) -> (s: String)
    requires
        from <= to <= chars.len(),
    ensures
        s@ == chars@.subrange(from as int, to as int),
{
    let mut s = String::new();
    let mut i: usize = from;
    while i < to
        invariant
            from <= i <= to <= chars.len(),
            s@ == chars@.subrange(from as int, i as int),
        decreases to - i,
    {
        s.push(chars[i]);
        i += 1;
        assert(chars@.subrange(from as int, i as int) == chars@.subrange(from as int, i - 1).push(
            chars@[i - 1],
        ));
    }
    s
}

/// Position of the first `c` in `s`, or `s.len()` when `s` holds none.
pub open spec fn first_index(s: Seq<char>, c: char) -> int
    decreases s.len(),
{
    if s.len() == 0 {
        0
    } else if s[0] == c {
        0
    } else {
        1 + first_index(s.drop_first(), c)
    }
}

/// `first_index` stays inside the sequence, points at `c` when it points at
/// anything, and nothing before it is `c`.
pub proof fn lemma_first_index(s: Seq<char>, c: char)
    ensures
        0 <= first_index(s, c) <= s.len(),
        first_index(s, c) < s.len() ==> s[first_index(s, c)] == c,
        forall|k: int| 0 <= k < first_index(s, c) ==> s[k] != c,
    decreases s.len(),
{
    if s.len() != 0 && s[0] != c {
        let t = s.drop_first();
        lemma_first_index(t, c);
        assert forall|k: int| 0 <= k < first_index(s, c) implies s[k] != c by {
            if k > 0 {
                assert(s[k] == t[k - 1]);
            }
        }
    }
}

/// A position that holds `c` and has no `c` before it is the first index.
pub proof fn lemma_first_index_is(s: Seq<char>, c: char, i: int)
    requires
        0 <= i <= s.len(),
        i < s.len() ==> s[i] == c,
        forall|k: int| 0 <= k < i ==> s[k] != c,
    ensures
        first_index(s, c) == i,
{
    lemma_first_index(s, c);
    let f = first_index(s, c);
    if f < i {
        assert(s[f] != c);
    }
}

/// Position of the first `c` at or after `from`, or `chars.len()`.
pub fn find_from(chars: &Vec<char>, from: usize, c: char) -> (i: usize)
    requires
        from <= chars.len(),
    ensures
        from <= i <= chars.len(),
        i == from + first_index(chars@.skip(from as int), c),
{
    let mut i: usize = from;
    while i < chars.len() && chars[i] != c
        invariant
            from <= i <= chars.len(),
            forall|k: int| from <= k < i ==> chars@[k] != c,
        decreases chars.len() - i,
    {
        i += 1;
    }
    proof {
        lemma_first_index_is(chars@.skip(from as int), c, i - from);
    }
    i
}

/// The pieces of `s` between occurrences of `c`, empty pieces included; a
/// sequence without `c` is its own single piece.
pub open spec fn split(s: Seq<char>, c: char) -> Seq<Seq<char>>
    decreases s.len(),
{
    let i = first_index(s, c);
    if 0 <= i < s.len() {
        seq![s.take(i)] + split(s.skip(i + 1), c)
    } else {
        seq![s]
    }
}

/// The views of a vector of strings.
pub open spec fn views(v: Seq<String>) -> Seq<Seq<char>> {
    Seq::new(v.len(), |i: int| v[i]@)
}

/// Splits `chars[from..to]` at every `c`.
pub fn split_range(chars: &Vec<char>, from: usize, to: usize, c: char) -> (pieces: Vec<String>)
    requires
        from <= to <= chars.len(),
    ensures
        views(pieces@) == split(chars@.subrange(from as int, to as int), c),
{
    let ghost whole = chars@.subrange(from as int, to as int);
    let mut pieces: Vec<String> = Vec::new();
    let mut start: usize = from;
    let mut i: usize = from;
    while i < to
        invariant
            from <= start <= i <= to <= chars.len(),
            whole == chars@.subrange(from as int, to as int),
            forall|k: int| start <= k < i ==> chars@[k] != c,
            split(whole, c) == views(pieces@) + split(chars@.subrange(start as int, to as int), c),
        decreases to - i,
    {
        if chars[i] == c {
            let piece = substring(chars, start, i);
            proof {
                let rest = chars@.subrange(start as int, to as int);
                lemma_first_index_is(rest, c, i - start);
                assert(rest.take(i - start) == chars@.subrange(start as int, i as int));
                assert(rest.skip(i - start + 1) == chars@.subrange(i + 1, to as int));
                assert(views(pieces@.push(piece)) == views(pieces@) + seq![piece@]);
            }
            pieces.push(piece);
            start = i + 1;
        }
        i += 1;
    }
    let last = substring(chars, start, to);
    proof {
        let rest = chars@.subrange(start as int, to as int);
        lemma_first_index_is(rest, c, to - start);
        assert(views(pieces@.push(last)) == views(pieces@) + seq![last@]);
    }
    pieces.push(last);
    pieces
}

/// Whether two strings hold the same characters.
pub fn chars_eq(a: &str, b: &str) -> (r: bool)
    ensures
        r == (a@ == b@),
{
    let x = chars_of(a);
    let y = chars_of(b);
    if x.len() != y.len() {
        return false;
    }
    let mut i: usize = 0;
    while i < x.len()
        invariant
            i <= x.len(),
            x.len() == y.len(),
            x@ == a@,
            y@ == b@,
            forall|k: int| 0 <= k < i ==> x@[k] == y@[k],
        decreases x.len() - i,
    {
        if x[i] != y[i] {
            assert(a@[i as int] != b@[i as int]);
            return false;
        }
        i += 1;
    }
    assert(x@ =~= y@);
    true
}

/// The decimal digit for a value below ten.
pub open spec fn digit(d: nat) -> char {
    if d == 0 {
        '0'
    } else if d == 1 {
        '1'
    } else if d == 2 {
        '2'
    } else if d == 3 {
        '3'
    } else if d == 4 {
        '4'
    } else if d == 5 {
        '5'
    } else if d == 6 {
        '6'
    } else if d == 7 {
        '7'
    } else if d == 8 {
        '8'
    } else {
        '9'
    }
}

/// The decimal numeral of `n`, without leading zeros.
pub open spec fn decimal(n: nat) -> Seq<char>
    decreases n,
{
    if n < 10 {
        seq![digit(n)]
    } else {
        decimal(n / 10).push(digit(n % 10))
    }
}

/// The digit character of a value below ten.
pub fn digit_char(d: usize) -> (c: char)
    requires
        d < 10,
    ensures
        c == digit(d as nat),
{
    if d == 0 {
        '0'
    } else if d == 1 {
        '1'
    } else if d == 2 {
        '2'
    } else if d == 3 {
        '3'
    } else if d == 4 {
        '4'
    } else if d == 5 {
        '5'
    } else if d == 6 {
        '6'
    } else if d == 7 {
        '7'
    } else if d == 8 {
        '8'
    } else {
        '9'
    }
}

/// Writes `n` in decimal.
pub fn to_decimal(n: usize) -> (s: String)
    ensures
        s@ == decimal(n as nat),
{
    // Digits come out lowest first; they are pushed in reverse afterwards.
    let mut low_first: Vec<char> = Vec::new();
    let mut rest: usize = n;
    low_first.push(digit_char(rest % 10));
    rest = rest / 10;
    while rest > 0
        invariant
            low_first@.len() >= 1,
            decimal(n as nat) == if rest == 0 {
                low_first@.reverse()
            } else {
                decimal(rest as nat) + low_first@.reverse()
            },
        decreases rest,
    {
        let ghost before = low_first@;
        low_first.push(digit_char(rest % 10));
        proof {
            let d = digit((rest % 10) as nat);
            assert(low_first@.reverse() =~= seq![d] + before.reverse());
            if rest >= 10 {
                assert(decimal(rest as nat) == decimal((rest / 10) as nat).push(d));
                assert(decimal((rest / 10) as nat).push(d) + before.reverse() =~= decimal(
                    (rest / 10) as nat,
                ) + low_first@.reverse());
            } else {
                assert(decimal(rest as nat) == seq![d]);
            }
        }
        rest = rest / 10;
    }
    let mut s = String::new();
    let mut i: usize = low_first.len();
    while i > 0
        invariant
            i <= low_first.len(),
            s@ == low_first@.reverse().take(low_first.len() - i),
        decreases i,
    {
        i -= 1;
        s.push(low_first[i]);
        assert(low_first@.reverse().take(low_first.len() - i) =~= low_first@.reverse().take(
            low_first.len() - i - 1,
        ).push(low_first@[i as int]));
    }
    assert(low_first@.reverse().take(low_first.len() as int) =~= low_first@.reverse());
    s
}

/// What `str::to_uppercase` makes of a string.
pub uninterp spec fn uppercase(s: Seq<char>) -> Seq<char>;

/// `str::to_uppercase` of the standard library: the upper-case form of `s`
/// under the Unicode case mapping, which depends on the characters alone.
#[verifier::external_body]
pub(crate) fn to_upper(s: &str) -> (r: String)
    ensures
        r@ == uppercase(s@),
{
    s.to_uppercase()
}

/// The pieces that are not empty, in their order.
pub open spec fn nonempty(pieces: Seq<Seq<char>>) -> Seq<Seq<char>>
    decreases pieces.len(),
{
    if pieces.len() == 0 {
        Seq::empty()
    } else if pieces.last().len() > 0 {
        nonempty(pieces.drop_last()).push(pieces.last())
    } else {
        nonempty(pieces.drop_last())
    }
}

/// The segments of a path: what stands between slashes, empty pieces
/// dropped, so that leading, trailing and doubled slashes do not count.
pub open spec fn segments(path: Seq<char>) -> Seq<Seq<char>> {
    nonempty(split(path, '/'))
}

/// The segments of `path`.
pub fn segments_of(path: &str) -> (segs: Vec<String>)
    ensures
        views(segs@) == segments(path@),
{
    let chars = chars_of(path);
    assert(chars@.subrange(0, chars.len() as int) == path@);
    let pieces = split_range(&chars, 0, chars.len(), '/');
    let mut segs: Vec<String> = Vec::new();
    let mut i: usize = 0;
    while i < pieces.len()
        invariant
            i <= pieces.len(),
            views(segs@) == nonempty(views(pieces@).take(i as int)),
        decreases pieces.len() - i,
    {
        proof {
            let all = views(pieces@);
            assert(all.take(i + 1).drop_last() == all.take(i as int));
            assert(all.take(i + 1).last() == pieces@[i as int]@);
        }
        if !pieces[i].as_str().is_empty() {
            let piece = pieces[i].clone();
            assert(views(segs@.push(piece)) == views(segs@).push(piece@));
            segs.push(piece);
        }
        i += 1;
    }
    assert(views(pieces@).take(pieces.len() as int) == views(pieces@));
    segs
}

/// The characters with the Unicode property `White_Space`.
pub open spec fn is_whitespace(c: char) -> bool {
    let u = c as u32;
    ||| 0x09 <= u <= 0x0d
    ||| u == 0x20
    ||| u == 0x85
    ||| u == 0xa0
    ||| u == 0x1680
    ||| 0x2000 <= u <= 0x200a
    ||| u == 0x2028
    ||| u == 0x2029
    ||| u == 0x202f
    ||| u == 0x205f
    ||| u == 0x3000
}

/// Whether `c` is white space.
pub fn whitespace(c: char) -> (b: bool)
    ensures
        b == is_whitespace(c),
{
    let u: u32 = c as u32;
    (0x09 <= u && u <= 0x0d) || u == 0x20 || u == 0x85 || u == 0xa0 || u == 0x1680 || (0x2000 <= u
        && u <= 0x200a) || u == 0x2028 || u == 0x2029 || u == 0x202f || u == 0x205f || u
        == 0x3000
}

/// `s` without the white space at its start.
pub open spec fn trim_start(s: Seq<char>) -> Seq<char>
    decreases s.len(),
{
    if s.len() > 0 && is_whitespace(s[0]) {
        trim_start(s.drop_first())
    } else {
        s
    }
}

/// `s` without the white space at its end.
pub open spec fn trim_end(s: Seq<char>) -> Seq<char>
    decreases s.len(),
{
    if s.len() > 0 && is_whitespace(s.last()) {
        trim_end(s.drop_last())
    } else {
        s
    }
}

/// `s` without the white space at either end.
pub open spec fn trim(s: Seq<char>) -> Seq<char> {
    trim_end(trim_start(s))
}

/// Where `chars[from..to]` starts once its leading white space is gone.
pub fn skip_whitespace(chars: &Vec<char>, from: usize, to: usize) -> (i: usize)
    requires
        from <= to <= chars.len(),
    ensures
        from <= i <= to,
        trim_start(chars@.subrange(from as int, to as int)) == chars@.subrange(i as int, to as int),
{
    let mut i: usize = from;
    while i < to && whitespace(chars[i])
        invariant
            from <= i <= to <= chars.len(),
            trim_start(chars@.subrange(from as int, to as int)) == trim_start(
                chars@.subrange(i as int, to as int),
            ),
        decreases to - i,
    {
        assert(chars@.subrange(i as int, to as int).drop_first() == chars@.subrange(
            i + 1,
            to as int,
        ));
        i += 1;
    }
    i
}

/// Where `chars[from..to]` ends once its trailing white space is gone.
pub fn skip_whitespace_back(chars: &Vec<char>, from: usize, to: usize) -> (j: usize)
    requires
        from <= to <= chars.len(),
    ensures
        from <= j <= to,
        trim_end(chars@.subrange(from as int, to as int)) == chars@.subrange(from as int, j as int),
{
    let mut j: usize = to;
    while j > from && whitespace(chars[j - 1])
        invariant
            from <= j <= to <= chars.len(),
            trim_end(chars@.subrange(from as int, to as int)) == trim_end(
                chars@.subrange(from as int, j as int),
            ),
        decreases j,
    {
        assert(chars@.subrange(from as int, j as int).drop_last() == chars@.subrange(
            from as int,
            j - 1,
        ));
        j -= 1;
    }
    j
}

/// `chars[from..to]` without the white space at either end.
pub fn trimmed(chars: &Vec<char>, from: usize, to: usize) -> (s: String)
    requires
        from <= to <= chars.len(),
    ensures
        s@ == trim(chars@.subrange(from as int, to as int)),
{
    let start = skip_whitespace(chars, from, to);
    let end = skip_whitespace_back(chars, start, to);
    substring(chars, start, end)
}

/// Length of the run of characters at the start of `s` that are not white space.
pub open spec fn word_len(s: Seq<char>) -> int
    decreases s.len(),
{
    if s.len() > 0 && !is_whitespace(s[0]) {
        1 + word_len(s.drop_first())
    } else {
        0
    }
}

/// The words of `s`: the maximal runs of characters that are not white space.
pub open spec fn words(s: Seq<char>) -> Seq<Seq<char>>
    decreases s.len(),
    via words_decreases
{
    let t = trim_start(s);
    if t.len() == 0 {
        Seq::empty()
    } else {
        seq![t.take(word_len(t))] + words(t.skip(word_len(t)))
    }
}

#[via_fn]
proof fn words_decreases(s: Seq<char>) {
    let t = trim_start(s);
    lemma_trim_start(s);
    if t.len() != 0 {
        lemma_word_len(t);
    }
}

/// Trimming the start leaves a suffix that does not begin with white space.
pub proof fn lemma_trim_start(s: Seq<char>)
    ensures
        trim_start(s).len() <= s.len(),
        trim_start(s).len() > 0 ==> !is_whitespace(trim_start(s)[0]),
    decreases s.len(),
{
    if s.len() > 0 && is_whitespace(s[0]) {
        lemma_trim_start(s.drop_first());
    }
}

/// A word is no longer than the text, and not empty where the text starts
/// with something other than white space.
pub proof fn lemma_word_len(s: Seq<char>)
    ensures
        0 <= word_len(s) <= s.len(),
        s.len() > 0 && !is_whitespace(s[0]) ==> word_len(s) > 0,
        forall|k: int| 0 <= k < word_len(s) ==> !is_whitespace(s[k]),
        word_len(s) < s.len() ==> is_whitespace(s[word_len(s)]),
    decreases s.len(),
{
    if s.len() > 0 && !is_whitespace(s[0]) {
        let t = s.drop_first();
        lemma_word_len(t);
        assert forall|k: int| 0 <= k < word_len(s) implies !is_whitespace(s[k]) by {
            if k > 0 {
                assert(s[k] == t[k - 1]);
            }
        }
        if word_len(s) < s.len() {
            assert(s[word_len(s)] == t[word_len(t)]);
        }
    }
}

/// A run that holds no white space and ends at white space or at the end
/// is the first word.
pub proof fn lemma_word_len_is(s: Seq<char>, n: int)
    requires
        0 <= n <= s.len(),
        forall|k: int| 0 <= k < n ==> !is_whitespace(s[k]),
        n < s.len() ==> is_whitespace(s[n]),
    ensures
        word_len(s) == n,
{
    lemma_word_len(s);
    let w = word_len(s);
    if w < n {
        assert(!is_whitespace(s[w]));
    } else if n < w {
        assert(!is_whitespace(s[n]));
    }
}

/// The words of `line`.
pub fn words_of(line: &str) -> (out: Vec<String>)
    ensures
        views(out@) == words(line@),
{
    let chars = chars_of(line);
    let n: usize = chars.len();
    let mut out: Vec<String> = Vec::new();
    let mut i: usize = 0;
    assert(chars@.subrange(0, n as int) == line@);
    loop
        invariant
            i <= n,
            n == chars.len(),
            words(line@) == views(out@) + words(chars@.subrange(i as int, n as int)),
        ensures
            words(line@) == views(out@),
        decreases n - i,
    {
        let start = skip_whitespace(&chars, i, n);
        let ghost t = chars@.subrange(start as int, n as int);
        if start >= n {
            assert(t.len() == 0);
            assert(views(out@) + Seq::<Seq<char>>::empty() == views(out@));
            break;
        }
        let mut end: usize = start;
        while end < n && !whitespace(chars[end])
            invariant
                start <= end <= n,
                n == chars.len(),
                forall|k: int| start <= k < end ==> !is_whitespace(chars@[k]),
            decreases n - end,
        {
            end += 1;
        }
        let word = substring(&chars, start, end);
        proof {
            lemma_trim_start(chars@.subrange(i as int, n as int));
            lemma_word_len_is(t, end - start);
            assert(t.take(end - start) == chars@.subrange(start as int, end as int));
            assert(t.skip(end - start) == chars@.subrange(end as int, n as int));
            assert(views(out@.push(word)) == views(out@) + seq![word@]);
            assert(end > start);
        }
        out.push(word);
        i = end;
    }
    out
}

/// `s` without one carriage return at its end.
pub open spec fn strip_cr(s: Seq<char>) -> Seq<char> {
    if s.len() > 0 && s.last() == '\r' {
        s.drop_last()
    } else {
        s
    }
}

/// The lines of `s`. A line ends at a line feed, or at a carriage return
/// followed by a line feed; what follows the last line feed is a line of
/// its own unless it is empty, and keeps a carriage return at its end.
pub open spec fn lines(s: Seq<char>) -> Seq<Seq<char>> {
    let pieces = split(s, '\n');
    let ended = Seq::new((pieces.len() - 1) as nat, |i: int| strip_cr(pieces[i]));
    if pieces.last().len() > 0 {
        ended.push(pieces.last())
    } else {
        ended
    }
}

/// `split` yields at least one piece.
pub proof fn lemma_split_len(s: Seq<char>, c: char)
    ensures
        split(s, c).len() >= 1,
    decreases s.len(),
{
    let i = first_index(s, c);
    if 0 <= i < s.len() {
        lemma_split_len(s.skip(i + 1), c);
    }
}

/// The lines of `chars[from..to]`.
pub fn lines_of(chars: &Vec<char>, from: usize, to: usize) -> (out: Vec<String>)
    requires
        from <= to <= chars.len(),
    ensures
        views(out@) == lines(chars@.subrange(from as int, to as int)),
{
    let pieces = split_range(chars, from, to, '\n');
    let ghost whole = chars@.subrange(from as int, to as int);
    proof {
        lemma_split_len(whole, '\n');
    }
    let count: usize = pieces.len();
    let mut out: Vec<String> = Vec::new();
    let mut i: usize = 0;
    while i + 1 < count
        invariant
            count == pieces.len(),
            count >= 1,
            i + 1 <= count,
            views(out@) == Seq::new(i as nat, |k: int| strip_cr(views(pieces@)[k])),
        decreases count - i,
    {
        let piece = chars_of(pieces[i].as_str());
        let m: usize = piece.len();
        let line = if m > 0 && piece[m - 1] == '\r' {
            assert(piece@.drop_last() == piece@.subrange(0, m - 1));
            substring(&piece, 0, m - 1)
        } else {
            assert(piece@ == piece@.subrange(0, m as int));
            substring(&piece, 0, m)
        };
        proof {
            assert(piece@ == pieces@[i as int]@);
            assert(m > 0 ==> piece@.last() == piece@[m - 1]);
            assert(line@ == strip_cr(piece@));
            assert(views(pieces@)[i as int] == piece@);
            let wanted = Seq::new((i + 1) as nat, |k: int| strip_cr(views(pieces@)[k]));
            assert(views(out@.push(line)) =~= views(out@).push(line@));
            assert(views(out@).push(line@) =~= wanted);
        }
        out.push(line);
        i += 1;
    }
    if !pieces[count - 1].as_str().is_empty() {
        let last = pieces[count - 1].clone();
        assert(views(out@.push(last)) == views(out@).push(last@));
        out.push(last);
    }
    out
}

} // verus!

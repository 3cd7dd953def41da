//! Route patterns: path templates made of literal, named-parameter and
//! wildcard segments, and the matching of concrete paths against them.

use crate::string_map::StringMap;
use crate::text::{chars_eq, chars_of, segments, segments_of, substring, views};
use vstd::prelude::*;

verus! {

/// One segment of a pattern, as a plain value.
pub enum Segment {
    /// Must equal the path segment at its place.
    Exact(Seq<char>),
    /// Matches any path segment and captures it under the name.
    Param(Seq<char>),
    /// Matches the path segment at its place and everything after it.
    Wildcard,
}

/// What one non-empty pattern segment means: `*` is the wildcard, a leading
/// colon names a parameter, anything else is a literal.
pub open spec fn classify(segment: Seq<char>) -> Segment {
    if segment == seq!['*'] {
        Segment::Wildcard
    } else if segment.len() > 0 && segment[0] == ':' {
        Segment::Param(segment.skip(1))
    } else {
        Segment::Exact(segment)
    }
}

/// The classified segments up to and including the first wildcard. What
/// follows a wildcard could never take part in a match and is left out.
pub open spec fn classify_all(segs: Seq<Seq<char>>) -> Seq<Segment>
    decreases segs.len(),
{
    if segs.len() == 0 {
        Seq::empty()
    } else if classify(segs[0]) is Wildcard {
        seq![Segment::Wildcard]
    } else {
        seq![classify(segs[0])] + classify_all(segs.drop_first())
    }
}

/// The pattern that a template string stands for.
pub open spec fn compile(template: Seq<char>) -> Seq<Segment> {
    classify_all(segments(template))
}

/// A wildcard, where there is one, is the last segment.
pub open spec fn wildcard_only_last(pattern: Seq<Segment>) -> bool {
    forall|i: int| 0 <= i < pattern.len() && pattern[i] is Wildcard ==> i == pattern.len() - 1
}

/// Whether the pattern holds a wildcard.
pub open spec fn has_wildcard(pattern: Seq<Segment>) -> bool {
    exists|i: int| 0 <= i < pattern.len() && pattern[i] is Wildcard
}

/// Matches `path` against `pattern` from position `i` on, with `captured`
/// holding what the parameters before `i` captured.
pub open spec fn match_from(
    pattern: Seq<Segment>,
    path: Seq<Seq<char>>,
    i: int,
    captured: Map<Seq<char>, Seq<char>>,
) -> Option<Map<Seq<char>, Seq<char>>>
    decreases pattern.len() - i,
{
    if i < 0 {
        None
    } else if i >= pattern.len() {
        if i == path.len() {
            Some(captured)
        } else {
            None
        }
    } else if i >= path.len() {
        None
    } else {
        match pattern[i] {
            Segment::Exact(literal) => if path[i] == literal {
                match_from(pattern, path, i + 1, captured)
            } else {
                None
            },
            Segment::Param(name) => match_from(pattern, path, i + 1, captured.insert(name, path[i])),
            Segment::Wildcard => Some(captured),
        }
    }
}

/// What matching the path segments `path` against `pattern` captures, or
/// `None` where they do not match.
pub open spec fn captures(pattern: Seq<Segment>, path: Seq<Seq<char>>) -> Option<
    Map<Seq<char>, Seq<char>>,
> {
    match_from(pattern, path, 0, Map::empty())
}

/// `classify_all` never puts a wildcard anywhere but last.
pub proof fn lemma_classify_all_wildcard(segs: Seq<Seq<char>>)
    ensures
        wildcard_only_last(classify_all(segs)),
    decreases segs.len(),
{
    if segs.len() != 0 && !(classify(segs[0]) is Wildcard) {
        lemma_classify_all_wildcard(segs.drop_first());
        let rest = classify_all(segs.drop_first());
        let all = classify_all(segs);
        assert forall|i: int| 0 <= i < all.len() && all[i] is Wildcard implies i == all.len()
            - 1 by {
            if i > 0 {
                assert(all[i] == rest[i - 1]);
            }
        }
    }
}

/// A pattern without a wildcard matches only paths with as many segments as
/// it has itself.
pub proof fn lemma_segment_counts(pattern: Seq<Segment>, path: Seq<Seq<char>>)
    requires
        !has_wildcard(pattern),
        pattern.len() != path.len(),
    ensures
        captures(pattern, path) is None,
{
    lemma_match_from_counts(pattern, path, 0, Map::empty());
}

proof fn lemma_match_from_counts(
    pattern: Seq<Segment>,
    path: Seq<Seq<char>>,
    i: int,
    captured: Map<Seq<char>, Seq<char>>,
)
    requires
        !has_wildcard(pattern),
        pattern.len() != path.len(),
        0 <= i <= pattern.len(),
        i <= path.len(),
    ensures
        match_from(pattern, path, i, captured) is None,
    decreases pattern.len() - i,
{
    if i < pattern.len() && i < path.len() {
        match pattern[i] {
            Segment::Exact(literal) => {
                lemma_match_from_counts(pattern, path, i + 1, captured);
            },
            Segment::Param(name) => {
                lemma_match_from_counts(pattern, path, i + 1, captured.insert(name, path[i]));
            },
            Segment::Wildcard => {
                assert(pattern[i] is Wildcard);
            },
        }
    }
}

/// One segment of a compiled pattern.
#[derive(Debug)]
pub enum PathSegment {
    Exact(String),
    Param(String),
    Wildcard,
}

impl View for PathSegment {
    type V = Segment;

    open spec fn view(&self) -> Segment {
        match self {
            PathSegment::Exact(literal) => Segment::Exact(literal@),
            PathSegment::Param(name) => Segment::Param(name@),
            PathSegment::Wildcard => Segment::Wildcard,
        }
    }
}

/// The views of a vector of segments.
pub open spec fn segment_views(v: Seq<PathSegment>) -> Seq<Segment> {
    Seq::new(v.len(), |i: int| v[i]@)
}

/// Classifies one non-empty segment of a template.
pub fn classify_segment(segment: &str) -> (s: PathSegment)
    ensures
        s@ == classify(segment@),
{
    let chars = chars_of(segment);
    if chars.len() == 1 && chars[0] == '*' {
        assert(segment@ =~= seq!['*']);
        PathSegment::Wildcard
    } else {
        assert(segment@ != seq!['*']) by {
            if segment@ == seq!['*'] {
                assert(seq!['*'].len() == 1);
                assert(seq!['*'][0] == '*');
            }
        }
        if chars.len() > 0 && chars[0] == ':' {
            let name = substring(&chars, 1, chars.len());
            assert(segment@.skip(1) == chars@.subrange(1, chars.len() as int));
            PathSegment::Param(name)
        } else {
            assert(segment@ == chars@.subrange(0, chars.len() as int));
            PathSegment::Exact(substring(&chars, 0, chars.len()))
        }
    }
}

/// A compiled path template. It does not change once it is made.
#[derive(Debug)]
pub struct RoutePattern {
    segments: Vec<PathSegment>,
}

impl View for RoutePattern {
    type V = Seq<Segment>;

    closed spec fn view(&self) -> Seq<Segment> {
        segment_views(self.segments@)
    }
}

impl RoutePattern {
    /// A wildcard, where there is one, is the last segment.
    #[verifier::type_invariant]
    pub closed spec fn wf(&self) -> bool {
        wildcard_only_last(self@)
    }

    /// Compiles a template such as `/users/:id` or `/static/*`.
    pub fn new(pattern: &str) -> (p: Self)
        ensures
            p@ == compile(pattern@),
            wildcard_only_last(p@),
    {
        let segs = segments_of(pattern);
        let mut out: Vec<PathSegment> = Vec::new();
        let mut i: usize = 0;
        let mut done = false;
        proof {
            assert(views(segs@).skip(0) == views(segs@));
            assert(segment_views(out@) + classify_all(views(segs@)) == classify_all(views(segs@)));
        }
        while i < segs.len() && !done
            invariant
                i <= segs.len(),
                !done ==> classify_all(views(segs@)) == segment_views(out@) + classify_all(
                    views(segs@).skip(i as int),
                ),
                done ==> classify_all(views(segs@)) == segment_views(out@),
            decreases segs.len() - i,
        {
            let s = classify_segment(segs[i].as_str());
            proof {
                let rest = views(segs@).skip(i as int);
                assert(rest[0] == segs@[i as int]@);
                assert(rest.drop_first() == views(segs@).skip(i + 1));
                assert(segment_views(out@.push(s)) == segment_views(out@) + seq![s@]);
            }
            match s {
                PathSegment::Wildcard => {
                    done = true;
                },
                _ => {},
            }
            out.push(s);
            i += 1;
        }
        proof {
            lemma_classify_all_wildcard(views(segs@));
            if !done {
                assert(views(segs@).skip(i as int).len() == 0);
            }
        }
        RoutePattern { segments: out }
    }

    /// Matches a concrete path. On a match the result holds what the named
    /// parameters captured, each path segment taken as it stands.
    pub fn matches(&self, path: &str) -> (r: Option<StringMap>)
        ensures
            match r {
                Some(m) => captures(self@, segments(path@)) == Some(m@),
                None => captures(self@, segments(path@)) is None,
            },
    {
        let segs = segments_of(path);
        let ghost path_segs = views(segs@);
        let mut params = StringMap::new();
        let mut i: usize = 0;
        while i < self.segments.len()
            invariant
                i <= self.segments.len(),
                path_segs == views(segs@),
                path_segs == segments(path@),
                i <= segs.len(),
                captures(self@, path_segs) == match_from(self@, path_segs, i as int, params@),
            decreases self.segments.len() - i,
        {
            if i >= segs.len() {
                return None;
            }
            match &self.segments[i] {
                PathSegment::Exact(expected) => {
                    if !chars_eq(segs[i].as_str(), expected.as_str()) {
                        return None;
                    }
                },
                PathSegment::Param(name) => {
                    params.insert(name.clone(), segs[i].clone());
                },
                PathSegment::Wildcard => {
                    return Some(params);
                },
            }
            i += 1;
        }
        if i == segs.len() {
            Some(params)
        } else {
            None
        }
    }
}

impl Clone for RoutePattern {
    fn clone(&self) -> (p: Self)
        ensures
            p@ == self@,
            wildcard_only_last(p@),
    {
        proof {
            use_type_invariant(self);
        }
        let mut out: Vec<PathSegment> = Vec::new();
        let mut i: usize = 0;
        while i < self.segments.len()
            invariant
                i <= self.segments.len(),
                out@.len() == i,
                forall|k: int| 0 <= k < i ==> out@[k]@ == self.segments@[k]@,
            decreases self.segments.len() - i,
        {
            let s = match &self.segments[i] {
                PathSegment::Exact(literal) => PathSegment::Exact(literal.clone()),
                PathSegment::Param(name) => PathSegment::Param(name.clone()),
                PathSegment::Wildcard => PathSegment::Wildcard,
            };
            out.push(s);
            i += 1;
        }
        assert(segment_views(out@) =~= self@);
        RoutePattern { segments: out }
    }
}

} // verus!

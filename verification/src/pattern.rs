//! Route patterns.
//!
//! A pattern string such as `/users/:id` or `/*any` is split on `/` into
//! segments. A segment starting with `:` is a dynamic parameter that captures
//! one path segment; a segment starting with `*` is a wildcard that captures
//! the whole remaining path suffix and must be the last segment; any other
//! segment is a literal that must appear verbatim in the path.

use vstd::prelude::*;

use crate::scan::first_slash;
use crate::scan::lemma_first_slash_bounds;
use crate::scan::lemma_skip_slashes;
use crate::scan::seg_end;
use crate::scan::skip_slashes;
use crate::scan::skip_slashes_exec;

verus! {

/// Mathematical model of one pattern segment.
pub enum SpecSeg {
    Literal(Seq<char>),
    Param(Seq<char>),
    Wildcard(Seq<char>),
}

/// One segment of a route pattern, as matched against one path segment
/// (or, for `Wildcard`, against the whole remaining path).
pub enum Segment {
    /// Matches exactly this text.
    Literal(String),
    /// Matches any one segment, capturing it under this name.
    Param(String),
    /// Matches the whole remaining suffix, capturing it under this name.
    Wildcard(String),
}

impl View for Segment {
    type V = SpecSeg;

    open spec fn view(&self) -> SpecSeg {
        match self {
            Segment::Literal(l) => SpecSeg::Literal(l@),
            Segment::Param(n) => SpecSeg::Param(n@),
            Segment::Wildcard(n) => SpecSeg::Wildcard(n@),
        }
    }
}

/// Why a pattern string was rejected.
#[derive(Clone, Copy, Debug, PartialEq, Eq, Structural)]
pub enum InvalidPatternError {
    /// A segment was only `:` or `*`, with no name after the marker.
    EmptyName,
    /// A wildcard segment was followed by another segment.
    WildcardNotLast,
}

pub open spec fn segments_view(v: Vec<Segment>) -> Seq<SpecSeg> {
    v@.map_values(|g: Segment| g@)
}

/// The text of a segment: the literal itself, or the name after the marker.
pub open spec fn seg_name(g: SpecSeg) -> Seq<char> {
    match g {
        SpecSeg::Literal(l) => l,
        SpecSeg::Param(n) => n,
        SpecSeg::Wildcard(n) => n,
    }
}

/// A well-formed segment has a nonempty, slash-free name.
pub open spec fn seg_wf(g: SpecSeg) -> bool {
    &&& seg_name(g).len() > 0
    &&& forall|i: int| 0 <= i < seg_name(g).len() ==> seg_name(g)[i] != '/'
}

/// A well-formed pattern: every segment is well formed and a wildcard can
/// only stand last.
pub open spec fn pattern_wf(p: Seq<SpecSeg>) -> bool {
    &&& forall|i: int| 0 <= i < p.len() ==> seg_wf(#[trigger] p[i])
    &&& forall|i: int| 0 <= i < p.len() - 1 ==> !(#[trigger] p[i] is Wildcard)
}

/// How a raw (nonempty) pattern segment is read.
pub open spec fn classify(raw: Seq<char>) -> SpecSeg
    recommends
        raw.len() > 0,
{
    if raw[0] == ':' {
        SpecSeg::Param(raw.drop_first())
    } else if raw[0] == '*' {
        SpecSeg::Wildcard(raw.drop_first())
    } else {
        SpecSeg::Literal(raw)
    }
}

/// The meaning of a pattern string: its sequence of segments, or the error
/// raised at the first offending segment (an empty name is reported before a
/// misplaced wildcard within one segment).
pub open spec fn parse_segments(s: Seq<char>) -> Result<Seq<SpecSeg>, InvalidPatternError>
    decreases s.len(),
    via parse_segments_decreases
{
    let t = skip_slashes(s);
    if t.len() == 0 {
        Ok(seq![])
    } else {
        let raw = t.take(first_slash(t));
        let rest = t.skip(first_slash(t));
        if (raw[0] == ':' || raw[0] == '*') && raw.len() == 1 {
            Err(InvalidPatternError::EmptyName)
        } else if raw[0] == '*' && skip_slashes(rest).len() > 0 {
            Err(InvalidPatternError::WildcardNotLast)
        } else {
            match parse_segments(rest) {
                Ok(rest_segs) => Ok(seq![classify(raw)] + rest_segs),
                Err(e) => Err(e),
            }
        }
    }
}

#[via_fn]
proof fn parse_segments_decreases(s: Seq<char>) {
    lemma_skip_slashes(s);
    lemma_first_slash_bounds(skip_slashes(s));
}

/// Every pattern that parses is well formed; in particular a wildcard
/// declared anywhere but last never comes out of `parse_segments`.
pub proof fn lemma_parse_wf(s: Seq<char>)
    ensures
        parse_segments(s) matches Ok(p) ==> pattern_wf(p),
    decreases s.len(),
{
    lemma_skip_slashes(s);
    let t = skip_slashes(s);
    lemma_first_slash_bounds(t);
    if t.len() > 0 {
        let raw = t.take(first_slash(t));
        let rest = t.skip(first_slash(t));
        let bad_name = (raw[0] == ':' || raw[0] == '*') && raw.len() == 1;
        let bad_wild = raw[0] == '*' && skip_slashes(rest).len() > 0;
        if !bad_name && !bad_wild {
            lemma_parse_wf(rest);
            match parse_segments(rest) {
                Ok(rest_segs) => {
                    let seg = classify(raw);
                    let p = seq![seg] + rest_segs;
                    assert(seg_name(seg).len() > 0);
                    assert forall|i: int| 0 <= i < seg_name(seg).len() implies seg_name(seg)[i]
                        != '/' by {
                        if raw[0] == ':' || raw[0] == '*' {
                            assert(raw[i + 1] != '/');
                        }
                    }
                    if raw[0] == '*' {
                        lemma_parse_empty_on_slashes(rest);
                        assert(rest_segs.len() == 0);
                    }
                    assert forall|i: int| 0 <= i < p.len() implies seg_wf(#[trigger] p[i]) by {
                        if i > 0 {
                            assert(p[i] == rest_segs[i - 1]);
                        }
                    }
                    assert forall|i: int| 0 <= i < p.len() - 1 implies !(#[trigger] p[i]
                        is Wildcard) by {
                        if i > 0 {
                            assert(p[i] == rest_segs[i - 1]);
                        }
                    }
                    assert(pattern_wf(p));
                },
                Err(_) => {},
            }
        }
    }
}

/// A string with no segments left (only slashes, or nothing) parses to the
/// empty pattern.
proof fn lemma_parse_empty_on_slashes(s: Seq<char>)
    requires
        skip_slashes(s).len() == 0,
    ensures
        parse_segments(s) == Ok::<Seq<SpecSeg>, InvalidPatternError>(seq![]),
{
}

/// A parsed route pattern: the sequence of segments of a pattern string that
/// `PathPattern::parse` accepted. Its view is that sequence; every value of
/// this type satisfies `pattern_wf` of its view.
pub struct PathPattern {
    segments: Vec<Segment>,
}

impl View for PathPattern {
    type V = Seq<SpecSeg>;

    closed spec fn view(&self) -> Seq<SpecSeg> {
        segments_view(self.segments)
    }
}

impl PathPattern {
    #[verifier::type_invariant]
    closed spec fn wf(self) -> bool {
        pattern_wf(self@)
    }

    /// Patterns exist only by parsing, so every `PathPattern` is well
    /// formed: in particular, no pattern ever holds a wildcard anywhere but
    /// in its last segment. This witness hands that fact to callers.
    pub fn confirm_wf(&self)
        ensures
            pattern_wf(self@),
    {
        proof {
            use_type_invariant(self);
        }
    }

    /// The segments, for the matcher.
    pub(crate) fn segs(&self) -> (r: &Vec<Segment>)
        ensures
            segments_view(*r) == self@,
    {
        &self.segments
    }

    /// Parses a pattern string. Returns the pattern whose segments are
    /// `parse_segments(s@)`, or the error that spec function gives; accepted
    /// patterns are always well formed.
    pub fn parse(s: &str) -> (r: Result<PathPattern, InvalidPatternError>)
        ensures
            match r {
                Ok(p) => parse_segments(s@) == Ok::<Seq<SpecSeg>, InvalidPatternError>(p@)
                    && pattern_wf(p@),
                Err(e) => parse_segments(s@) == Err::<Seq<SpecSeg>, InvalidPatternError>(e),
            },
    {
        proof {
            assert(s@.skip(0) =~= s@);
            lemma_parse_wf(s@);
        }
        match parse_from(s, 0) {
            Ok(v) => Ok(PathPattern { segments: v }),
            Err(e) => Err(e),
        }
    }
}

/// Recursive worker for `PathPattern::parse`: parses the suffix of `path`
/// that starts at character `pos`.
fn parse_from(path: &str, pos: usize) -> (r: Result<Vec<Segment>, InvalidPatternError>)
    requires
        pos <= path@.len(),
    ensures
        match r {
            Ok(v) => parse_segments(path@.skip(pos as int)) == Ok::<
                Seq<SpecSeg>,
                InvalidPatternError,
            >(segments_view(v)),
            Err(e) => parse_segments(path@.skip(pos as int)) == Err::<
                Seq<SpecSeg>,
                InvalidPatternError,
            >(e),
        },
    decreases path@.len() - pos,
{
    let ghost s = path@.skip(pos as int);
    let start = skip_slashes_exec(path, pos);
    let len = path.unicode_len();
    let ghost t = path@.skip(start as int);
    proof {
        lemma_skip_slashes(s);
        lemma_first_slash_bounds(t);
    }
    if start == len {
        let v: Vec<Segment> = Vec::new();
        proof {
            assert(t =~= Seq::<char>::empty());
            assert(segments_view(v) =~= seq![]);
        }
        Ok(v)
    } else {
        let end = seg_end(path, start);
        let ghost raw = t.take(first_slash(t));
        proof {
            assert(raw =~= path@.subrange(start as int, end as int));
            assert(t.skip(first_slash(t)) =~= path@.skip(end as int));
            assert(raw[0] == path@[start as int]);
        }
        let c0 = path.get_char(start);
        if (c0 == ':' || c0 == '*') && end - start == 1 {
            Err(InvalidPatternError::EmptyName)
        } else if c0 == '*' {
            let after = skip_slashes_exec(path, end);
            if after != len {
                proof {
                    assert(skip_slashes(path@.skip(end as int)).len() == path@.len() - after);
                }
                Err(InvalidPatternError::WildcardNotLast)
            } else {
                proof {
                    assert(skip_slashes(path@.skip(end as int)) =~= Seq::<char>::empty());
                    lemma_parse_empty_on_slashes(path@.skip(end as int));
                }
                let name = path.substring_char(start + 1, end).to_owned();
                let mut v: Vec<Segment> = Vec::new();
                v.push(Segment::Wildcard(name));
                proof {
                    assert(name@ =~= raw.drop_first());
                    assert(segments_view(v) =~= seq![classify(raw)] + seq![]);
                }
                Ok(v)
            }
        } else {
            let seg = if c0 == ':' {
                let name = path.substring_char(start + 1, end).to_owned();
                proof {
                    assert(name@ =~= raw.drop_first());
                }
                Segment::Param(name)
            } else {
                let text = path.substring_char(start, end).to_owned();
                proof {
                    assert(text@ =~= raw);
                }
                Segment::Literal(text)
            };
            proof {
                assert(seg@ == classify(raw));
            }
            match parse_from(path, end) {
                Ok(mut rest) => {
                    let ghost rest0 = rest@;
                    let ghost before = segments_view(rest);
                    rest.insert(0, seg);
                    proof {
                        assert(rest@ == rest0.insert(0, seg));
                        assert forall|i: int| 0 <= i < segments_view(rest).len() implies
                            segments_view(rest)[i] == (seq![classify(raw)] + before)[i] by {
                            if i > 0 {
                                assert(rest@[i] == rest0[i - 1]);
                                assert(before[i - 1] == rest0[i - 1]@);
                            } else {
                                assert(rest@[0] == seg);
                            }
                        }
                        assert(segments_view(rest) =~= seq![classify(raw)] + before);
                    }
                    Ok(rest)
                },
                Err(e) => Err(e),
            }
        }
    }
}

} // verus!

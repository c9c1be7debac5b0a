//! The route tree and the matcher.
//!
//! A [`RouteNode`] pairs a pattern with a view identifier and an ordered
//! sequence of child nodes; a parent's pattern is a prefix consumed before
//! its children see the rest of the path. [`match_path`] walks a forest of
//! such nodes depth first, in declaration order, and returns the chain of
//! view identifiers from root to leaf together with the captured parameters,
//! or `NotFound`.
//!
//! Precedence follows declaration order: the first branch whose own pattern
//! accepts a prefix of the path is committed to. Once the matcher has
//! descended into a node's children it does not back out to try the node's
//! later siblings; if no child accepts the remainder, the whole match fails.

use vstd::prelude::*;

use crate::pattern::PathPattern;
use crate::pattern::Segment;
use crate::pattern::SpecSeg;
use crate::pattern::segments_view;
use crate::scan::first_slash;
use crate::scan::lemma_first_slash_bounds;
use crate::scan::lemma_skip_slashes;
use crate::scan::seg_end;
use crate::scan::skip_slashes;
use crate::scan::skip_slashes_exec;
use crate::scan::str_range_matches;

verus! {

/// One node of the route tree: a pattern, the identifier of the view it
/// renders, and its children in declaration order.
pub struct RouteNode {
    pub pattern: PathPattern,
    pub view_id: u64,
    pub children: Vec<RouteNode>,
}

impl RouteNode {
    /// A node with children: the pattern is consumed first, the remainder of
    /// the path is handed to the children.
    pub fn new(pattern: PathPattern, view_id: u64, children: Vec<RouteNode>) -> (r: RouteNode)
        ensures
            r.pattern == pattern,
            r.view_id == view_id,
            r.children == children,
    {
        RouteNode { pattern, view_id, children }
    }

    /// A node without children: it matches only when its pattern consumes
    /// the whole path.
    pub fn leaf(pattern: PathPattern, view_id: u64) -> (r: RouteNode)
        ensures
            r.pattern == pattern,
            r.view_id == view_id,
            r.children@.len() == 0,
    {
        RouteNode { pattern, view_id, children: Vec::new() }
    }
}

/// Mathematical model of a match: the view identifiers from root to leaf and
/// the `(name, value)` pairs captured on the way, or `NotFound`.
pub enum SpecMatchResult {
    Matched { views: Seq<u64>, params: Seq<(Seq<char>, Seq<char>)> },
    NotFound,
}

/// The result of matching a path against a route tree.
#[derive(Debug)]
pub enum MatchResult {
    /// The view identifiers from root to leaf, and the parameters captured
    /// by `Param` and `Wildcard` segments, in capture order.
    Matched { views: Vec<u64>, params: Vec<(String, String)> },
    /// No branch of the tree accepted the path.
    NotFound,
}

pub open spec fn params_view(ps: Seq<(String, String)>) -> Seq<(Seq<char>, Seq<char>)> {
    ps.map_values(|p: (String, String)| (p.0@, p.1@))
}

impl View for MatchResult {
    type V = SpecMatchResult;

    open spec fn view(&self) -> SpecMatchResult {
        match self {
            MatchResult::Matched { views, params } => SpecMatchResult::Matched {
                views: views@,
                params: params_view(params@),
            },
            MatchResult::NotFound => SpecMatchResult::NotFound,
        }
    }
}

/// Reading a capture list as a mapping: the value of the first pair carrying
/// `name`, if any.
pub open spec fn lookup_spec(params: Seq<(Seq<char>, Seq<char>)>, name: Seq<char>) -> Option<
    Seq<char>,
>
    decreases params.len(),
{
    if params.len() == 0 {
        None
    } else if params[0].0 == name {
        Some(params[0].1)
    } else {
        lookup_spec(params.drop_first(), name)
    }
}

impl MatchResult {
    /// The value captured under `name`: the first capture with that name,
    /// or `None` — always `None` on `NotFound`.
    pub fn param<'a>(&'a self, name: &str) -> (r: Option<&'a String>)
        ensures
            ({
                let expected = match *self {
                    MatchResult::Matched { params, .. } => lookup_spec(
                        params_view(params@),
                        name@,
                    ),
                    MatchResult::NotFound => None,
                };
                match r {
                    Some(v) => expected == Some(v@),
                    None => expected is None,
                }
            }),
    {
        match self {
            MatchResult::NotFound => None,
            MatchResult::Matched { params, .. } => {
                let ghost pv = params_view(params@);
                proof {
                    assert(pv.skip(0) =~= pv);
                }
                let mut i: usize = 0;
                loop
                    invariant
                        0 <= i <= params@.len(),
                        (*self) is Matched,
                        (*self)->Matched_params == *params,
                        pv == params_view(params@),
                        lookup_spec(pv, name@) == lookup_spec(pv.skip(i as int), name@),
                    decreases params@.len() - i,
                {
                    if i == params.len() {
                        proof {
                            assert(pv.skip(i as int) =~= Seq::<(Seq<char>, Seq<char>)>::empty());
                        }
                        return None;
                    }
                    proof {
                        assert(pv.skip(i as int)[0] == pv[i as int]);
                        assert(pv.skip(i as int).drop_first() =~= pv.skip(i + 1 as int));
                    }
                    if crate::scan::str_eq(name, params[i].0.as_str()) {
                        return Some(&params[i].1);
                    }
                    i = i + 1;
                }
            },
        }
    }
}

/// What one pattern does to a path suffix `s`: `None` if the pattern rejects
/// it, otherwise the suffix that is left together with the captures, in
/// order. Segments are consumed one at a time past any run of slashes; a
/// wildcard consumes the whole remaining suffix (without its leading
/// slashes) as its capture.
pub open spec fn consume(pat: Seq<SpecSeg>, s: Seq<char>) -> Option<
    (Seq<char>, Seq<(Seq<char>, Seq<char>)>),
>
    decreases pat.len(),
{
    if pat.len() == 0 {
        Some((s, seq![]))
    } else {
        let t = skip_slashes(s);
        match pat[0] {
            SpecSeg::Literal(l) => {
                if t.len() > 0 && t.take(first_slash(t)) == l {
                    consume(pat.drop_first(), t.skip(first_slash(t)))
                } else {
                    None
                }
            },
            SpecSeg::Param(n) => {
                if t.len() > 0 {
                    match consume(pat.drop_first(), t.skip(first_slash(t))) {
                        Some((rem, caps)) => Some(
                            (rem, seq![(n, t.take(first_slash(t)))] + caps),
                        ),
                        None => None,
                    }
                } else {
                    None
                }
            },
            SpecSeg::Wildcard(n) => Some((seq![], seq![(n, t)])),
        }
    }
}

/// What trying one node against a path suffix yields.
pub enum RouteOutcome {
    /// The node's own pattern did not accept a prefix of the suffix.
    Miss,
    /// The pattern accepted a prefix and the matcher descended into the
    /// children, but none of them matched; the branch is committed and the
    /// node's later siblings are not tried.
    Dead,
    /// A full match down to a leaf.
    Hit { views: Seq<u64>, params: Seq<(Seq<char>, Seq<char>)> },
}

/// Matching one node: consume its pattern, then either require the suffix to
/// be spent (leaf) or hand the remainder to the children.
pub open spec fn node_outcome(node: RouteNode, s: Seq<char>) -> RouteOutcome
    decreases node,
{
    match consume(node.pattern@, s) {
        None => RouteOutcome::Miss,
        Some((rem, caps)) => {
            if node.children@.len() == 0 {
                if skip_slashes(rem).len() == 0 {
                    RouteOutcome::Hit { views: seq![node.view_id], params: caps }
                } else {
                    RouteOutcome::Miss
                }
            } else {
                match nodes_outcome(node.children@, rem) {
                    RouteOutcome::Hit { views, params } => RouteOutcome::Hit {
                        views: seq![node.view_id] + views,
                        params: caps + params,
                    },
                    _ => RouteOutcome::Dead,
                }
            }
        },
    }
}

/// Matching a forest: nodes are tried in declaration order; the first node
/// that does not miss decides the outcome.
pub open spec fn nodes_outcome(nodes: Seq<RouteNode>, s: Seq<char>) -> RouteOutcome
    decreases nodes,
{
    if nodes.len() == 0 {
        RouteOutcome::Miss
    } else {
        match node_outcome(nodes[0], s) {
            RouteOutcome::Miss => nodes_outcome(nodes.drop_first(), s),
            o => o,
        }
    }
}

/// The meaning of `match_path`: `Matched` exactly when some branch of the
/// forest yields a hit, carrying that hit's view chain and captures.
pub open spec fn match_spec(nodes: Seq<RouteNode>, path: Seq<char>) -> SpecMatchResult {
    match nodes_outcome(nodes, path) {
        RouteOutcome::Hit { views, params } => SpecMatchResult::Matched { views, params },
        _ => SpecMatchResult::NotFound,
    }
}

enum ExecOutcome {
    Miss,
    Dead,
    Hit(Vec<u64>, Vec<(String, String)>),
}

spec fn outcome_view(o: ExecOutcome) -> RouteOutcome {
    match o {
        ExecOutcome::Miss => RouteOutcome::Miss,
        ExecOutcome::Dead => RouteOutcome::Dead,
        ExecOutcome::Hit(views, params) => RouteOutcome::Hit {
            views: views@,
            params: params_view(params@),
        },
    }
}

/// Recursive worker: consumes the pattern segments from `pi` on against the
/// suffix of `path` that starts at `pos`. Returns the position where
/// consumption stopped and the captures made on the way.
fn consume_exec(segs: &Vec<Segment>, pi: usize, path: &str, pos: usize) -> (r: Option<
    (usize, Vec<(String, String)>),
>)
    requires
        pi <= segs@.len(),
        pos <= path@.len(),
    ensures
        ({
            let sp = consume(segments_view(*segs).skip(pi as int), path@.skip(pos as int));
            match r {
                Some((p2, caps)) => p2 <= path@.len() && sp == Some(
                    (path@.skip(p2 as int), params_view(caps@)),
                ),
                None => sp is None,
            }
        }),
    decreases segs@.len() - pi,
{
    let ghost pat = segments_view(*segs).skip(pi as int);
    if pi == segs.len() {
        let caps: Vec<(String, String)> = Vec::new();
        proof {
            assert(pat =~= Seq::<SpecSeg>::empty());
            assert(params_view(caps@) =~= seq![]);
        }
        Some((pos, caps))
    } else {
        proof {
            assert(pat[0] == segs@[pi as int]@);
            assert(pat.drop_first() =~= segments_view(*segs).skip(pi + 1 as int));
        }
        let ghost s = path@.skip(pos as int);
        let start = skip_slashes_exec(path, pos);
        let ghost t = path@.skip(start as int);
        proof {
            lemma_skip_slashes(s);
            lemma_first_slash_bounds(t);
        }
        let len = path.unicode_len();
        match &segs[pi] {
            Segment::Literal(l) => {
                if start == len {
                    proof {
                        assert(t =~= Seq::<char>::empty());
                    }
                    None
                } else {
                    let end = seg_end(path, start);
                    proof {
                        assert(t.take(first_slash(t)) =~= path@.subrange(
                            start as int,
                            end as int,
                        ));
                        assert(t.skip(first_slash(t)) =~= path@.skip(end as int));
                    }
                    if str_range_matches(path, start, end, l) {
                        consume_exec(segs, pi + 1, path, end)
                    } else {
                        None
                    }
                }
            },
            Segment::Param(n) => {
                if start == len {
                    proof {
                        assert(t =~= Seq::<char>::empty());
                    }
                    None
                } else {
                    let end = seg_end(path, start);
                    proof {
                        assert(t.take(first_slash(t)) =~= path@.subrange(
                            start as int,
                            end as int,
                        ));
                        assert(t.skip(first_slash(t)) =~= path@.skip(end as int));
                    }
                    let value = path.substring_char(start, end).to_owned();
                    match consume_exec(segs, pi + 1, path, end) {
                        Some((p2, mut caps)) => {
                            let ghost caps0 = caps@;
                            let pair = (n.clone(), value);
                            caps.insert(0, pair);
                            proof {
                                assert forall|i: int| 0 <= i < params_view(caps@).len() implies
                                    params_view(caps@)[i] == (seq![
                                    (n@, t.take(first_slash(t))),
                                ] + params_view(caps0))[i] by {
                                    if i > 0 {
                                        assert(caps@[i] == caps0[i - 1]);
                                        assert(params_view(caps0)[i - 1] == (
                                        caps0[i - 1].0@,
                                        caps0[i - 1].1@,
                                        ));
                                    } else {
                                        assert(caps@[0] == pair);
                                    }
                                }
                                assert(params_view(caps@) =~= seq![(n@, t.take(first_slash(t)))]
                                    + params_view(caps0));
                            }
                            Some((p2, caps))
                        },
                        None => None,
                    }
                }
            },
            Segment::Wildcard(n) => {
                let value = path.substring_char(start, len).to_owned();
                let mut caps: Vec<(String, String)> = Vec::new();
                caps.push((n.clone(), value));
                proof {
                    assert(value@ =~= t);
                    assert(path@.skip(len as int) =~= Seq::<char>::empty());
                    assert(params_view(caps@) =~= seq![(n@, t)]);
                }
                Some((len, caps))
            },
        }
    }
}

/// Recursive worker for one node, mirroring `node_outcome`.
fn match_node_exec(node: &RouteNode, path: &str, pos: usize) -> (r: ExecOutcome)
    requires
        pos <= path@.len(),
    ensures
        outcome_view(r) == node_outcome(*node, path@.skip(pos as int)),
    decreases *node,
{
    let segs = node.pattern.segs();
    proof {
        assert(segments_view(*segs).skip(0) =~= node.pattern@);
    }
    match consume_exec(segs, 0, path, pos) {
        None => ExecOutcome::Miss,
        Some((p2, caps)) => {
            if node.children.len() == 0 {
                let rem_start = skip_slashes_exec(path, p2);
                if rem_start == path.unicode_len() {
                    let mut views: Vec<u64> = Vec::new();
                    views.push(node.view_id);
                    proof {
                        assert(views@ =~= seq![node.view_id]);
                    }
                    ExecOutcome::Hit(views, caps)
                } else {
                    ExecOutcome::Miss
                }
            } else {
                match match_nodes_exec(&node.children, path, p2) {
                    ExecOutcome::Hit(mut views, mut params) => {
                        let ghost views0 = views@;
                        let ghost params0 = params@;
                        views.insert(0, node.view_id);
                        let mut all = caps;
                        let ghost caps0 = all@;
                        all.append(&mut params);
                        proof {
                            assert(views@ =~= seq![node.view_id] + views0);
                            assert forall|i: int| 0 <= i < params_view(all@).len() implies
                                params_view(all@)[i] == (params_view(caps0) + params_view(
                                params0,
                            ))[i] by {
                                if i < caps0.len() {
                                    assert(all@[i] == caps0[i]);
                                } else {
                                    assert(all@[i] == params0[i - caps0.len()]);
                                }
                            }
                            assert(params_view(all@) =~= params_view(caps0) + params_view(
                                params0,
                            ));
                        }
                        ExecOutcome::Hit(views, all)
                    },
                    ExecOutcome::Miss => ExecOutcome::Dead,
                    ExecOutcome::Dead => ExecOutcome::Dead,
                }
            }
        },
    }
}

/// Recursive worker for a forest, mirroring `nodes_outcome`.
fn match_nodes_exec(nodes: &Vec<RouteNode>, path: &str, pos: usize) -> (r: ExecOutcome)
    requires
        pos <= path@.len(),
    ensures
        outcome_view(r) == nodes_outcome(nodes@, path@.skip(pos as int)),
    decreases nodes@,
{
    let ghost s = path@.skip(pos as int);
    proof {
        assert(nodes@.skip(0) =~= nodes@);
    }
    let mut i: usize = 0;
    loop
        invariant
            0 <= i <= nodes@.len(),
            pos <= path@.len(),
            s == path@.skip(pos as int),
            nodes_outcome(nodes@, s) == nodes_outcome(nodes@.skip(i as int), s),
        decreases nodes@.len() - i,
    {
        if i == nodes.len() {
            proof {
                assert(nodes@.skip(i as int) =~= Seq::<RouteNode>::empty());
            }
            return ExecOutcome::Miss;
        }
        let o = match_node_exec(&nodes[i], path, pos);
        proof {
            assert(nodes@.skip(i as int)[0] == nodes@[i as int]);
            assert(nodes@.skip(i as int).drop_first() =~= nodes@.skip(i + 1 as int));
        }
        match o {
            ExecOutcome::Miss => {
                i = i + 1;
            },
            other => {
                return other;
            },
        }
    }
}

/// Matches `path` against the route forest `routes` and returns the result
/// that `match_spec` defines: the first (in declaration order) structurally
/// matching branch's view chain and captured parameters, or `NotFound`.
pub fn match_path(routes: &Vec<RouteNode>, path: &str) -> (r: MatchResult)
    ensures
        r@ == match_spec(routes@, path@),
{
    proof {
        assert(path@.skip(0) =~= path@);
    }
    match match_nodes_exec(routes, path, 0) {
        ExecOutcome::Hit(views, params) => MatchResult::Matched { views, params },
        ExecOutcome::Miss => MatchResult::NotFound,
        ExecOutcome::Dead => MatchResult::NotFound,
    }
}

} // verus!

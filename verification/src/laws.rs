//! Laws of the matcher.
//!
//! Public proof functions stating, over the spec functions of
//! [`crate::matcher`] and [`crate::pattern`], what holds of matching in
//! general: literal trees capture nothing, a forest with no accepting branch
//! yields `NotFound`, declaration order decides precedence, and nesting a
//! child under a parent is equivalent to concatenating their patterns.

use vstd::prelude::*;

use crate::matcher::RouteNode;
use crate::matcher::RouteOutcome;
use crate::matcher::SpecMatchResult;
use crate::matcher::consume;
use crate::matcher::match_spec;
use crate::matcher::node_outcome;
use crate::matcher::nodes_outcome;
use crate::pattern::SpecSeg;
use crate::pattern::pattern_wf;
use crate::pattern::seg_name;
use crate::scan::first_slash;
use crate::scan::skip_slashes;

verus! {

/// A pattern whose every segment is a literal.
pub open spec fn pattern_literal_only(p: Seq<SpecSeg>) -> bool {
    forall|i: int| 0 <= i < p.len() ==> (#[trigger] p[i]) is Literal
}

/// A forest whose every pattern, down to the leaves, is made of literals.
pub open spec fn forest_literal_only(nodes: Seq<RouteNode>) -> bool
    decreases nodes,
{
    forall|i: int| 0 <= i < nodes.len() ==> node_literal_only(#[trigger] nodes[i])
}

pub open spec fn node_literal_only(node: RouteNode) -> bool
    decreases node,
{
    &&& pattern_literal_only(node.pattern@)
    &&& forest_literal_only(node.children@)
}

proof fn lemma_consume_literal_only(pat: Seq<SpecSeg>, s: Seq<char>)
    requires
        pattern_literal_only(pat),
    ensures
        consume(pat, s) matches Some((rem, caps)) ==> caps.len() == 0,
    decreases pat.len(),
{
    if pat.len() > 0 {
        let rest = pat.drop_first();
        assert forall|i: int| 0 <= i < rest.len() implies (#[trigger] rest[i]) is Literal by {
            assert(rest[i] == pat[i + 1]);
        }
        let t = skip_slashes(s);
        lemma_consume_literal_only(pat.drop_first(), t.skip(first_slash(t)));
    }
}

proof fn lemma_node_literal_no_params(node: RouteNode, s: Seq<char>)
    requires
        node_literal_only(node),
    ensures
        node_outcome(node, s) matches RouteOutcome::Hit { params, .. } ==> params.len() == 0,
    decreases node,
{
    lemma_consume_literal_only(node.pattern@, s);
    match consume(node.pattern@, s) {
        Some((rem, caps)) => {
            if node.children@.len() > 0 {
                lemma_forest_literal_no_params(node.children@, rem);
            }
        },
        None => {},
    }
}

proof fn lemma_forest_literal_no_params(nodes: Seq<RouteNode>, s: Seq<char>)
    requires
        forest_literal_only(nodes),
    ensures
        nodes_outcome(nodes, s) matches RouteOutcome::Hit { params, .. } ==> params.len() == 0,
    decreases nodes,
{
    if nodes.len() > 0 {
        lemma_node_literal_no_params(nodes[0], s);
        assert forall|i: int| 0 <= i < nodes.drop_first().len() implies node_literal_only(
            #[trigger] nodes.drop_first()[i],
        ) by {
            assert(nodes.drop_first()[i] == nodes[i + 1]);
        }
        lemma_forest_literal_no_params(nodes.drop_first(), s);
    }
}

/// In a tree built only of literal patterns, any match captures no
/// parameters: whatever path is matched, `params` is empty.
pub proof fn lemma_literal_tree_empty_params(nodes: Seq<RouteNode>, path: Seq<char>)
    requires
        forest_literal_only(nodes),
    ensures
        match_spec(nodes, path) matches SpecMatchResult::Matched { params, .. } ==> params.len()
            == 0,
{
    lemma_forest_literal_no_params(nodes, path);
}

/// The canonical path written by a pattern's literal segments: each segment
/// prefixed with one slash.
pub open spec fn literal_path(p: Seq<SpecSeg>) -> Seq<char>
    decreases p.len(),
{
    if p.len() == 0 {
        Seq::empty()
    } else {
        seq!['/'] + seg_name(p[0]) + literal_path(p.drop_first())
    }
}

proof fn lemma_first_slash_concat(a: Seq<char>, b: Seq<char>)
    requires
        forall|i: int| 0 <= i < a.len() ==> a[i] != '/',
        b.len() > 0 ==> b[0] == '/',
    ensures
        first_slash(a + b) == a.len(),
    decreases a.len(),
{
    if a.len() == 0 {
        assert(a + b =~= b);
    } else {
        assert((a + b)[0] == a[0]);
        assert((a + b).drop_first() =~= a.drop_first() + b);
        assert forall|i: int| 0 <= i < a.drop_first().len() implies a.drop_first()[i] != '/' by {
            assert(a.drop_first()[i] == a[i + 1]);
        }
        lemma_first_slash_concat(a.drop_first(), b);
    }
}

proof fn lemma_consume_own_path(p: Seq<SpecSeg>)
    requires
        pattern_literal_only(p),
        pattern_wf(p),
    ensures
        consume(p, literal_path(p)) matches Some((rem, caps)) && rem.len() == 0 && caps.len()
            == 0,
    decreases p.len(),
{
    if p.len() == 0 {
    } else {
        let l = seg_name(p[0]);
        let rest_path = literal_path(p.drop_first());
        let s = literal_path(p);
        assert(s == seq!['/'] + l + rest_path);
        assert(s[0] == '/');
        assert(s.drop_first() =~= l + rest_path);
        assert((l + rest_path)[0] == l[0]);
        assert(skip_slashes(s) == skip_slashes(l + rest_path));
        let t = l + rest_path;
        assert(t.len() > 0 && t[0] != '/');
        assert(skip_slashes(t) == t);
        if p.drop_first().len() > 0 {
            assert(rest_path[0] == '/');
        }
        assert forall|i: int| 0 <= i < l.len() implies l[i] != '/' by {
            assert(seg_name(p[0])[i] != '/');
        }
        lemma_first_slash_concat(l, rest_path);
        assert(t.take(first_slash(t)) =~= l);
        assert(t.skip(first_slash(t)) =~= rest_path);
        let rest = p.drop_first();
        assert forall|i: int| 0 <= i < rest.len() implies (#[trigger] rest[i]) is Literal by {
            assert(rest[i] == p[i + 1]);
        }
        assert forall|i: int| 0 <= i < rest.len() implies crate::pattern::seg_wf(
            #[trigger] rest[i],
        ) by {
            assert(rest[i] == p[i + 1]);
        }
        assert forall|i: int| 0 <= i < rest.len() - 1 implies !((#[trigger] rest[i])
            is Wildcard) by {
            assert(rest[i] == p[i + 1]);
        }
        lemma_consume_own_path(p.drop_first());
    }
}

/// A leaf route whose pattern is all literals matches the path written
/// verbatim from those literals: the result is a hit on that leaf's view,
/// with an empty parameter mapping.
pub proof fn lemma_literal_leaf_matches(node: RouteNode)
    requires
        node.children@.len() == 0,
        pattern_literal_only(node.pattern@),
        pattern_wf(node.pattern@),
    ensures
        node_outcome(node, literal_path(node.pattern@)) == (RouteOutcome::Hit {
            views: seq![node.view_id],
            params: seq![],
        }),
{
    lemma_consume_own_path(node.pattern@);
    match consume(node.pattern@, literal_path(node.pattern@)) {
        Some((rem, caps)) => {
            assert(skip_slashes(rem).len() == 0);
            assert(caps =~= seq![]);
        },
        None => {
            assert(false);
        },
    }
}

proof fn lemma_forest_no_hit(nodes: Seq<RouteNode>, path: Seq<char>)
    requires
        forall|i: int| 0 <= i < nodes.len() ==> !((#[trigger] node_outcome(nodes[i], path))
            is Hit),
    ensures
        !(nodes_outcome(nodes, path) is Hit),
    decreases nodes,
{
    if nodes.len() > 0 {
        assert(!(node_outcome(nodes[0], path) is Hit));
        assert forall|i: int| 0 <= i < nodes.drop_first().len() implies !((
        #[trigger] node_outcome(nodes.drop_first()[i], path)) is Hit) by {
            assert(nodes.drop_first()[i] == nodes[i + 1]);
        }
        lemma_forest_no_hit(nodes.drop_first(), path);
    }
}

/// If no branch of the forest achieves a full match — every node either
/// misses or commits to a branch that dies — the result is `NotFound`.
pub proof fn lemma_no_branch_matched(nodes: Seq<RouteNode>, path: Seq<char>)
    requires
        forall|i: int| 0 <= i < nodes.len() ==> !((#[trigger] node_outcome(nodes[i], path))
            is Hit),
    ensures
        match_spec(nodes, path) is NotFound,
{
    lemma_forest_no_hit(nodes, path);
}

/// Declaration order decides precedence: when the first `k` routes of a
/// forest miss and route `k` does not, the forest's outcome is route `k`'s.
pub proof fn lemma_first_declared_wins(nodes: Seq<RouteNode>, path: Seq<char>, k: int)
    requires
        0 <= k < nodes.len(),
        forall|i: int| 0 <= i < k ==> (#[trigger] node_outcome(nodes[i], path)) is Miss,
        !(node_outcome(nodes[k], path) is Miss),
    ensures
        nodes_outcome(nodes, path) == node_outcome(nodes[k], path),
    decreases k,
{
    if k == 0 {
    } else {
        assert(node_outcome(nodes[0], path) is Miss);
        assert forall|i: int| 0 <= i < k - 1 implies (#[trigger] node_outcome(
            nodes.drop_first()[i],
            path,
        )) is Miss by {
            assert(nodes.drop_first()[i] == nodes[i + 1]);
        }
        assert(nodes.drop_first()[k - 1] == nodes[k]);
        lemma_first_declared_wins(nodes.drop_first(), path, k - 1);
    }
}

proof fn lemma_consume_concat(p1: Seq<SpecSeg>, p2: Seq<SpecSeg>, s: Seq<char>)
    requires
        forall|i: int| 0 <= i < p1.len() ==> !((#[trigger] p1[i]) is Wildcard),
    ensures
        ({
            let c = consume(p1 + p2, s);
            match consume(p1, s) {
                None => c is None,
                Some((rem1, caps1)) => match consume(p2, rem1) {
                    None => c is None,
                    Some((rem2, caps2)) => c == Some((rem2, caps1 + caps2)),
                },
            }
        }),
    decreases p1.len(),
{
    if p1.len() == 0 {
        assert(p1 + p2 =~= p2);
        match consume(p2, s) {
            Some((rem2, caps2)) => {
                assert(seq![] + caps2 =~= caps2);
            },
            None => {},
        }
    } else {
        assert((p1 + p2)[0] == p1[0]);
        assert((p1 + p2).drop_first() =~= p1.drop_first() + p2);
        let rest = p1.drop_first();
        assert forall|i: int| 0 <= i < rest.len() implies !((#[trigger] rest[i]) is Wildcard) by {
            assert(rest[i] == p1[i + 1]);
        }
        let t = skip_slashes(s);
        match p1[0] {
            SpecSeg::Literal(l) => {
                if t.len() > 0 && t.take(first_slash(t)) == l {
                    lemma_consume_concat(p1.drop_first(), p2, t.skip(first_slash(t)));
                }
            },
            SpecSeg::Param(n) => {
                if t.len() > 0 {
                    lemma_consume_concat(p1.drop_first(), p2, t.skip(first_slash(t)));
                    let cap = (n, t.take(first_slash(t)));
                    match consume(p1.drop_first(), t.skip(first_slash(t))) {
                        Some((rem1, caps1)) => {
                            match consume(p2, rem1) {
                                Some((rem2, caps2)) => {
                                    assert((seq![cap] + caps1) + caps2 =~= seq![cap] + (caps1
                                        + caps2));
                                },
                                None => {},
                            }
                        },
                        None => {},
                    }
                }
            },
            SpecSeg::Wildcard(n) => {
                assert(!(p1[0] is Wildcard));
            },
        }
    }
}

/// Nesting is associative: a parent route whose only child is a leaf accepts
/// a path exactly when a flat leaf whose pattern is the parent's followed by
/// the child's accepts it, with the same captured parameters; the view chain
/// lists parent then child where the flat route lists its own view.
pub proof fn lemma_nested_flat_equivalent(
    parent: RouteNode,
    child: RouteNode,
    flat: RouteNode,
    path: Seq<char>,
)
    requires
        parent.children@ == seq![child],
        child.children@.len() == 0,
        flat.children@.len() == 0,
        flat.pattern@ == parent.pattern@ + child.pattern@,
        forall|i: int| 0 <= i < parent.pattern@.len() ==> !((#[trigger] parent.pattern@[i])
            is Wildcard),
    ensures
        node_outcome(parent, path) is Hit <==> node_outcome(flat, path) is Hit,
        node_outcome(parent, path) matches RouteOutcome::Hit { views, params } ==> node_outcome(
            flat,
            path,
        ) == (RouteOutcome::Hit { views: seq![flat.view_id], params }),
        node_outcome(parent, path) matches RouteOutcome::Hit { views, .. } ==> views == seq![
            parent.view_id,
            child.view_id,
        ],
{
    lemma_consume_concat(parent.pattern@, child.pattern@, path);
    assert(parent.children@.len() == 1);
    assert(parent.children@[0] == child);
    assert(parent.children@.drop_first() =~= Seq::<RouteNode>::empty());
    match consume(parent.pattern@, path) {
        None => {
            assert(node_outcome(parent, path) is Miss);
            assert(consume(flat.pattern@, path) is None);
            assert(node_outcome(flat, path) is Miss);
        },
        Some((rem1, caps1)) => {
            match consume(child.pattern@, rem1) {
                None => {
                    assert(node_outcome(child, rem1) is Miss);
                    assert(nodes_outcome(Seq::<RouteNode>::empty(), rem1) is Miss);
                    assert(nodes_outcome(parent.children@, rem1) is Miss);
                    assert(node_outcome(parent, path) is Dead);
                    assert(consume(flat.pattern@, path) is None);
                    assert(node_outcome(flat, path) is Miss);
                },
                Some((rem2, caps2)) => {
                    assert(consume(flat.pattern@, path) == Some((rem2, caps1 + caps2)));
                    if skip_slashes(rem2).len() == 0 {
                        assert(node_outcome(child, rem1) == (RouteOutcome::Hit {
                            views: seq![child.view_id],
                            params: caps2,
                        }));
                        assert(nodes_outcome(parent.children@, rem1) == (RouteOutcome::Hit {
                            views: seq![child.view_id],
                            params: caps2,
                        }));
                        assert(node_outcome(parent, path) == (RouteOutcome::Hit {
                            views: seq![parent.view_id] + seq![child.view_id],
                            params: caps1 + caps2,
                        }));
                        assert(seq![parent.view_id] + seq![child.view_id] =~= seq![
                            parent.view_id,
                            child.view_id,
                        ]);
                        assert(node_outcome(flat, path) == (RouteOutcome::Hit {
                            views: seq![flat.view_id],
                            params: caps1 + caps2,
                        }));
                    } else {
                        assert(node_outcome(child, rem1) is Miss);
                        assert(nodes_outcome(Seq::<RouteNode>::empty(), rem1) is Miss);
                        assert(nodes_outcome(parent.children@, rem1) is Miss);
                        assert(node_outcome(parent, path) is Dead);
                        assert(node_outcome(flat, path) is Miss);
                    }
                },
            }
        },
    }
}

/// The same equivalence for whole one-route trees: the nested tree and the
/// flat tree match exactly the same requests, with the same parameters.
pub proof fn lemma_nested_flat_match(
    parent: RouteNode,
    child: RouteNode,
    flat: RouteNode,
    path: Seq<char>,
)
    requires
        parent.children@ == seq![child],
        child.children@.len() == 0,
        flat.children@.len() == 0,
        flat.pattern@ == parent.pattern@ + child.pattern@,
        forall|i: int| 0 <= i < parent.pattern@.len() ==> !((#[trigger] parent.pattern@[i])
            is Wildcard),
    ensures
        match_spec(seq![parent], path) is Matched <==> match_spec(seq![flat], path) is Matched,
        match_spec(seq![parent], path) matches SpecMatchResult::Matched { params, .. }
            ==> match_spec(seq![flat], path) == (SpecMatchResult::Matched {
            views: seq![flat.view_id],
            params,
        }),
{
    lemma_nested_flat_equivalent(parent, child, flat, path);
    assert(seq![parent][0] == parent);
    assert(seq![flat][0] == flat);
    assert(seq![parent].drop_first() =~= Seq::<RouteNode>::empty());
    assert(seq![flat].drop_first() =~= Seq::<RouteNode>::empty());
    assert(nodes_outcome(Seq::<RouteNode>::empty(), path) is Miss);
    match node_outcome(parent, path) {
        RouteOutcome::Miss => {
            assert(nodes_outcome(seq![parent], path) is Miss);
        },
        RouteOutcome::Dead => {
            assert(nodes_outcome(seq![parent], path) is Dead);
        },
        RouteOutcome::Hit { views, params } => {
            assert(nodes_outcome(seq![parent], path) == node_outcome(parent, path));
        },
    }
    match node_outcome(flat, path) {
        RouteOutcome::Miss => {
            assert(nodes_outcome(seq![flat], path) is Miss);
        },
        RouteOutcome::Dead => {
            assert(nodes_outcome(seq![flat], path) is Dead);
        },
        RouteOutcome::Hit { views, params } => {
            assert(nodes_outcome(seq![flat], path) == node_outcome(flat, path));
        },
    }
}

} // verus!

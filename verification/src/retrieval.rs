//! Hierarchical retrieval: a flat search over the similarity index,
//! widened by the directories around its hits.

use vstd::prelude::*;
use vstd::string::*;

use crate::config::RetrievalConfig;
use crate::error::Result;
use crate::node::{Node, NodeView};
use crate::pathway::{Pathway, PathwayView};
use crate::node::{now, Namespace};
use crate::ranking::{is_ranking, ranking, Score};
use crate::storage::memory::{below, node_views, selected, selects, MemoryStorage};
use crate::storage::vector_index::{ranked_views, search_fails, search_found};
use crate::rerank::{RerankDocument, RerankResult};
use crate::{match_views, MatchedNode, MatchedNodeView, QueryOptions, QueryResult};

verus! {

/// The match that `node` gives at `score`, under the pathway `pathway`.
fn make_match(pathway: &Pathway, node: &Node, score: Score) -> (m: MatchedNode)
    ensures
        m@ == MatchedNodeView::of(pathway@, node@, score),
{
    let m = MatchedNode {
        pathway: pathway.clone(),
        node_kind: node.kind,
        score,
        brief: node.digest.brief.clone(),
        summary: Some(node.digest.summary.clone()),
        content: None,
        highlights: Vec::new(),
    };
    assert(m@.highlights =~= Seq::<Seq<char>>::empty());
    m
}

/// Place of the first of the candidates `[from, upto)` that counts and
/// has no node in the store; `upto` when there is none. A candidate
/// counts when its score reaches `threshold`.
pub open spec fn first_lost(
    nodes: Map<Seq<char>, NodeView>,
    candidates: Seq<(PathwayView, Score)>,
    threshold: Option<Score>,
    from: int,
    upto: int,
) -> int
    decreases upto - from,
{
    if from >= upto || from < 0 || upto > candidates.len() {
        upto
    } else if counts(candidates[from], threshold) && !nodes.contains_key(candidates[from].0.text()) {
        from
    } else {
        first_lost(nodes, candidates, threshold, from + 1, upto)
    }
}

/// Whether a candidate is looked at: always without a threshold, else
/// when its score reaches the threshold.
pub open spec fn counts(candidate: (PathwayView, Score), threshold: Option<Score>) -> bool {
    match threshold {
        Some(t) => candidate.1 >= t,
        None => true,
    }
}

/// The match of a candidate whose node is in the store.
pub open spec fn match_of(nodes: Map<Seq<char>, NodeView>, candidate: (PathwayView, Score)) -> MatchedNodeView {
    MatchedNodeView::of(candidate.0, nodes[candidate.0.text()], candidate.1)
}

/// The matches of a flat search: one for each of the first `upto`
/// candidates, in order.
pub open spec fn flat_matches(
    nodes: Map<Seq<char>, NodeView>,
    candidates: Seq<(PathwayView, Score)>,
    upto: int,
) -> Seq<MatchedNodeView> {
    Seq::new(upto as nat, |i: int| match_of(nodes, candidates[i]))
}

/// The lesser of two numbers.
pub open spec fn lesser(a: int, b: int) -> int {
    if a < b {
        a
    } else {
        b
    }
}

/// What a flat search over `candidates` returns: a match for each of the
/// first `limit` candidates, or `NodeNotFound` for the first of them
/// that has no node.
pub open spec fn flat_outcome(
    nodes: Map<Seq<char>, NodeView>,
    candidates: Seq<(PathwayView, Score)>,
    limit: int,
    r: Result<Vec<MatchedNode>>,
) -> bool {
    let upto = lesser(limit, candidates.len() as int);
    let lost = first_lost(nodes, candidates, None, 0, upto);
    match r {
        Ok(out) => lost == upto && match_views(out@) == flat_matches(nodes, candidates, upto),
        Err(e) => lost < upto && e is NodeNotFound && e.detail() == candidates[lost].0.text(),
    }
}

/// A candidate that becomes a match of its own: it counts, and its
/// node is in the store and is no directory.
pub open spec fn direct_hit(
    nodes: Map<Seq<char>, NodeView>,
    candidate: (PathwayView, Score),
    threshold: Score,
) -> bool {
    candidate.1 >= threshold && nodes.contains_key(candidate.0.text()) && !nodes[candidate.0.text()].is_directory
}

/// The matches that the candidates give directly, in order.
pub open spec fn direct_matches(
    nodes: Map<Seq<char>, NodeView>,
    candidates: Seq<(PathwayView, Score)>,
    threshold: Score,
) -> Seq<MatchedNodeView>
    decreases candidates.len(),
{
    if candidates.len() == 0 {
        Seq::empty()
    } else {
        let rest = direct_matches(nodes, candidates.drop_last(), threshold);
        if direct_hit(nodes, candidates.last(), threshold) {
            rest.push(match_of(nodes, candidates.last()))
        } else {
            rest
        }
    }
}

/// The candidate marks the directory `dir` for expansion: it counts and
/// has a node, and `dir` is the candidate itself where that node is a
/// directory, else the parent of the candidate.
pub open spec fn marks_dir(
    nodes: Map<Seq<char>, NodeView>,
    candidate: (PathwayView, Score),
    threshold: Score,
    dir: PathwayView,
) -> bool {
    &&& candidate.1 >= threshold
    &&& nodes.contains_key(candidate.0.text())
    &&& if nodes[candidate.0.text()].is_directory {
        dir == candidate.0
    } else {
        candidate.0.parent() == Some(dir)
    }
}

/// One of the first `upto` candidates marks `dir` for expansion.
pub open spec fn is_marked(
    nodes: Map<Seq<char>, NodeView>,
    candidates: Seq<(PathwayView, Score)>,
    threshold: Score,
    upto: int,
    dir: PathwayView,
) -> bool {
    exists|i: int| 0 <= i < upto && i < candidates.len() && marks_dir(nodes, #[trigger] candidates[i], threshold, dir)
}

/// `marks` lists, once each, the directories that the first `upto`
/// candidates mark.
pub open spec fn lists_marks(
    nodes: Map<Seq<char>, NodeView>,
    candidates: Seq<(PathwayView, Score)>,
    threshold: Score,
    upto: int,
    marks: Seq<PathwayView>,
) -> bool {
    &&& forall|a: int| 0 <= a < marks.len() ==> is_marked(nodes, candidates, threshold, upto, #[trigger] marks[a])
    &&& forall|a: int, b: int| 0 <= a < b < marks.len() ==> #[trigger] marks[a] != #[trigger] marks[b]
    &&& forall|d: PathwayView| #[trigger] is_marked(nodes, candidates, threshold, upto, d) ==> marks.contains(d)
}

/// What each pathway of `v` holds.
pub open spec fn mark_views(v: Seq<Pathway>) -> Seq<PathwayView> {
    Seq::new(v.len(), |i: int| v[i]@)
}

/// What the first pass of a hierarchical search returns: the direct
/// matches and the marked directories, or `NodeNotFound` for the first
/// candidate that counts and has no node.
pub open spec fn direct_outcome(
    nodes: Map<Seq<char>, NodeView>,
    candidates: Seq<(PathwayView, Score)>,
    threshold: Score,
    r: Result<(Vec<MatchedNode>, Vec<Pathway>)>,
) -> bool {
    let n = candidates.len() as int;
    let lost = first_lost(nodes, candidates, Some(threshold), 0, n);
    match r {
        Ok(found) => lost == n && match_views(found.0@) == direct_matches(nodes, candidates, threshold)
            && lists_marks(nodes, candidates, threshold, n, mark_views(found.1@)),
        Err(e) => lost < n && e is NodeNotFound && e.detail() == candidates[lost].0.text(),
    }
}

/// Adds `dir` to `marks` unless it is there.
fn mark(marks: &mut Vec<Pathway>, dir: Pathway)
    requires
        forall|a: int, b: int|
            0 <= a < b < old(marks).len() ==> (#[trigger] old(marks)@[a])@ != (#[trigger] old(marks)@[b])@,
    ensures
        forall|a: int, b: int|
            0 <= a < b < final(marks).len() ==> (#[trigger] final(marks)@[a])@ != (
            #[trigger] final(marks)@[b])@,
        mark_views(final(marks)@).contains(dir@),
        mark_views(final(marks)@) == mark_views(old(marks)@) || mark_views(final(marks)@)
            == mark_views(old(marks)@).push(dir@),
        mark_views(old(marks)@).contains(dir@) ==> mark_views(final(marks)@) == mark_views(
            old(marks)@,
        ),
{
    let ghost before = mark_views(marks@);
    let mut a: usize = 0;
    while a < marks.len()
        invariant
            a <= marks.len(),
            before == mark_views(marks@),
            marks@ == old(marks)@,
            forall|x: int, y: int|
                0 <= x < y < marks.len() ==> (#[trigger] marks@[x])@ != (#[trigger] marks@[y])@,
            forall|x: int| 0 <= x < a ==> (#[trigger] marks@[x])@ != dir@,
        decreases marks.len() - a,
    {
        if marks[a] == dir {
            assert(before[a as int] == dir@);
            return ;
        }
        a += 1;
    }
    assert(!before.contains(dir@)) by {
        if before.contains(dir@) {
            let x = choose|x: int| 0 <= x < before.len() && before[x] == dir@;
            assert(marks@[x]@ == dir@);
        }
    }
    marks.push(dir);
    assert(mark_views(marks@) =~= before.push(dir@));
    assert(mark_views(marks@)[before.len() as int] == dir@);
}

/// The first pass of a hierarchical search: the candidates that count
/// are looked up; a leaf becomes a match and marks its parent, a
/// directory marks itself.
fn direct_hits(storage: &MemoryStorage, candidates: &[(Pathway, Score)], threshold: Score) -> (r:
    Result<(Vec<MatchedNode>, Vec<Pathway>)>)
    ensures
        direct_outcome(storage.nodes(), ranked_views(candidates@), threshold, r),
{
    let ghost nodes = storage.nodes();
    let ghost cands = ranked_views(candidates@);
    let n = candidates.len();
    let mut matches: Vec<MatchedNode> = Vec::new();
    let mut marks: Vec<Pathway> = Vec::new();
    let mut i: usize = 0;
    assert(cands.take(0) == Seq::<(PathwayView, Score)>::empty());
    assert(match_views(matches@) =~= direct_matches(nodes, cands.take(0), threshold));
    while i < n
        invariant
            i <= n,
            n == candidates.len(),
            nodes == storage.nodes(),
            cands == ranked_views(candidates@),
            first_lost(nodes, cands, Some(threshold), 0, n as int) == first_lost(
                nodes,
                cands,
                Some(threshold),
                i as int,
                n as int,
            ),
            match_views(matches@) == direct_matches(nodes, cands.take(i as int), threshold),
            lists_marks(nodes, cands, threshold, i as int, mark_views(marks@)),
            forall|a: int, b: int|
                0 <= a < b < marks.len() ==> (#[trigger] marks@[a])@ != (#[trigger] marks@[b])@,
        decreases n - i,
    {
        let pathway = &candidates[i].0;
        let score = candidates[i].1;
        let ghost c = cands[i as int];
        let ghost old_marks = mark_views(marks@);
        let ghost old_matches = match_views(matches@);
        proof {
            assert(c == (pathway@, score));
            assert(cands.take(i + 1).drop_last() == cands.take(i as int));
            assert(cands.take(i + 1).last() == c);
        }
        if score >= threshold {
            let node = match storage.get(pathway) {
                Ok(node) => node,
                Err(e) => {
                    assert(first_lost(nodes, cands, Some(threshold), i as int, n as int) == i);
                    return Err(e);
                },
            };
            if node.is_directory {
                mark(&mut marks, pathway.clone());
                proof {
                    lemma_marks_grow(nodes, cands, threshold, i as int, old_marks, mark_views(marks@), pathway@);
                }
            } else {
                matches.push(make_match(pathway, &node, score));
                assert(match_views(matches@) == old_matches.push(match_of(nodes, c)));
                match pathway.parent() {
                    Some(parent) => {
                        mark(&mut marks, parent);
                        proof {
                            lemma_marks_grow(
                                nodes,
                                cands,
                                threshold,
                                i as int,
                                old_marks,
                                mark_views(marks@),
                                pathway@.parent()->Some_0,
                            );
                        }
                    },
                    None => {
                        proof {
                            lemma_marks_same(nodes, cands, threshold, i as int, old_marks);
                        }
                    },
                }
            }
        } else {
            proof {
                lemma_marks_same(nodes, cands, threshold, i as int, old_marks);
            }
        }
        i += 1;
    }
    assert(cands.take(n as int) == cands);
    Ok((matches, marks))
}

/// A candidate that marks `dir` extends a list of marks by `dir`, if it
/// was not there.
proof fn lemma_marks_grow(
    nodes: Map<Seq<char>, NodeView>,
    candidates: Seq<(PathwayView, Score)>,
    threshold: Score,
    i: int,
    before: Seq<PathwayView>,
    after: Seq<PathwayView>,
    dir: PathwayView,
)
    requires
        0 <= i < candidates.len(),
        lists_marks(nodes, candidates, threshold, i, before),
        marks_dir(nodes, candidates[i], threshold, dir),
        after == before || after == before.push(dir),
        after.contains(dir),
        forall|a: int, b: int| 0 <= a < b < after.len() ==> #[trigger] after[a] != #[trigger] after[b],
    ensures
        lists_marks(nodes, candidates, threshold, i + 1, after),
{
    assert forall|a: int| 0 <= a < after.len() implies is_marked(
        nodes,
        candidates,
        threshold,
        i + 1,
        #[trigger] after[a],
    ) by {
        if a < before.len() {
            assert(after[a] == before[a]);
            assert(is_marked(nodes, candidates, threshold, i, before[a]));
            let w = choose|w: int|
                0 <= w < i && w < candidates.len() && marks_dir(
                    nodes,
                    #[trigger] candidates[w],
                    threshold,
                    before[a],
                );
            assert(marks_dir(nodes, candidates[w], threshold, after[a]));
        } else {
            assert(after[a] == dir);
            assert(marks_dir(nodes, candidates[i], threshold, dir));
        }
    }
    assert forall|d: PathwayView| #[trigger]
        is_marked(nodes, candidates, threshold, i + 1, d) implies after.contains(d) by {
        let w = choose|w: int|
            0 <= w < i + 1 && w < candidates.len() && marks_dir(nodes, #[trigger] candidates[w], threshold, d);
        if w < i {
            assert(is_marked(nodes, candidates, threshold, i, d));
            assert(before.contains(d));
            let a = choose|a: int| 0 <= a < before.len() && before[a] == d;
            assert(after[a] == d);
        } else {
            assert(d == dir);
        }
    }
}

/// A candidate that marks nothing leaves a list of marks as it is.
proof fn lemma_marks_same(
    nodes: Map<Seq<char>, NodeView>,
    candidates: Seq<(PathwayView, Score)>,
    threshold: Score,
    i: int,
    marks: Seq<PathwayView>,
)
    requires
        0 <= i < candidates.len(),
        lists_marks(nodes, candidates, threshold, i, marks),
        forall|d: PathwayView| !marks_dir(nodes, candidates[i], threshold, d),
    ensures
        lists_marks(nodes, candidates, threshold, i + 1, marks),
{
    assert forall|a: int| 0 <= a < marks.len() implies is_marked(
        nodes,
        candidates,
        threshold,
        i + 1,
        #[trigger] marks[a],
    ) by {
        assert(is_marked(nodes, candidates, threshold, i, marks[a]));
        let w = choose|w: int|
            0 <= w < i && w < candidates.len() && marks_dir(nodes, #[trigger] candidates[w], threshold, marks[a]);
        assert(marks_dir(nodes, candidates[w], threshold, marks[a]));
    }
    assert forall|d: PathwayView| #[trigger]
        is_marked(nodes, candidates, threshold, i + 1, d) implies marks.contains(d) by {
        let w = choose|w: int|
            0 <= w < i + 1 && w < candidates.len() && marks_dir(nodes, #[trigger] candidates[w], threshold, d);
        assert(w < i);
        assert(is_marked(nodes, candidates, threshold, i, d));
    }
}

/// The node under `key` is a leaf that carries an embedding.
pub open spec fn scorable(nodes: Map<Seq<char>, NodeView>, key: Seq<char>) -> bool {
    nodes.contains_key(key) && !nodes[key].is_directory && nodes[key].is_embedded()
}

/// `m` is a match gained by expanding `dir`: the match of a scorable
/// node below `dir`, at a score that the scoring function gives to its
/// embedding and that reaches the threshold.
pub open spec fn gained_below<F: Fn(&Vec<u32>) -> Score>(
    score_of: F,
    nodes: Map<Seq<char>, NodeView>,
    dir: PathwayView,
    max_depth: int,
    threshold: Score,
    m: MatchedNodeView,
) -> bool {
    exists|k: Seq<char>, v: Vec<u32>|
        #![trigger nodes[k], v@]
        scorable(nodes, k) && below(dir, max_depth)(nodes[k]) && v@ == nodes[k].embedding
            && call_ensures(score_of, (&v,), m.score) && m.score >= threshold && m
            == MatchedNodeView::of(nodes[k].pathway, nodes[k], m.score)
}

/// `m` is a match gained by expanding one of `dirs`.
pub open spec fn gained<F: Fn(&Vec<u32>) -> Score>(
    score_of: F,
    nodes: Map<Seq<char>, NodeView>,
    dirs: Seq<PathwayView>,
    max_depth: int,
    threshold: Score,
    m: MatchedNodeView,
) -> bool {
    exists|a: int|
        0 <= a < dirs.len() && gained_below(score_of, nodes, #[trigger] dirs[a], max_depth, threshold, m)
}

/// Some match of `out` has the pathway text `text`.
pub open spec fn has_text(out: Seq<MatchedNodeView>, text: Seq<char>) -> bool {
    exists|i: int| 0 <= i < out.len() && (#[trigger] out[i]).pathway.text() == text
}

/// The node under `key` is accounted for: a match of `out` has its
/// pathway text, or the scoring function gave it a score below the
/// threshold.
pub open spec fn settled<F: Fn(&Vec<u32>) -> Score>(
    score_of: F,
    nodes: Map<Seq<char>, NodeView>,
    threshold: Score,
    out: Seq<MatchedNodeView>,
    key: Seq<char>,
) -> bool {
    has_text(out, nodes[key].pathway.text()) || exists|v: Vec<u32>, s: Score|
        #![trigger call_ensures(score_of, (&v,), s)]
        v@ == nodes[key].embedding && call_ensures(score_of, (&v,), s) && s < threshold
}

/// `out` is `base` followed by what the expansion of `dirs` gains: every
/// further match is gained below one of the directories, none repeats
/// the pathway text of a match before it, and every scorable node below
/// one of the directories is accounted for.
pub open spec fn expansion<F: Fn(&Vec<u32>) -> Score>(
    score_of: F,
    nodes: Map<Seq<char>, NodeView>,
    dirs: Seq<PathwayView>,
    max_depth: int,
    threshold: Score,
    base: Seq<MatchedNodeView>,
    out: Seq<MatchedNodeView>,
) -> bool {
    &&& base.is_prefix_of(out)
    &&& forall|i: int|
        base.len() <= i < out.len() ==> gained(
            score_of,
            nodes,
            dirs,
            max_depth,
            threshold,
            #[trigger] out[i],
        )
    &&& forall|i: int, j: int|
        0 <= i < j < out.len() && base.len() <= j ==> (#[trigger] out[i]).pathway.text() != (
        #[trigger] out[j]).pathway.text()
    &&& forall|k: Seq<char>, a: int|
        0 <= a < dirs.len() && scorable(nodes, k) && below(#[trigger] dirs[a], max_depth)(
            #[trigger] nodes[k],
        ) ==> settled(score_of, nodes, threshold, out, k)
}

/// A node that is accounted for stays so when matches are added.
proof fn lemma_settled_grows<F: Fn(&Vec<u32>) -> Score>(
    score_of: F,
    nodes: Map<Seq<char>, NodeView>,
    threshold: Score,
    out: Seq<MatchedNodeView>,
    more: Seq<MatchedNodeView>,
    key: Seq<char>,
)
    requires
        settled(score_of, nodes, threshold, out, key),
        out.is_prefix_of(more),
    ensures
        settled(score_of, nodes, threshold, more, key),
{
    if has_text(out, nodes[key].pathway.text()) {
        let i = choose|i: int|
            0 <= i < out.len() && (#[trigger] out[i]).pathway.text() == nodes[key].pathway.text();
        assert(more[i] == out[i]);
    }
}

/// Whether a match of `results` has the pathway text `text`.
fn find_text(results: &Vec<MatchedNode>, text: &String) -> (r: bool)
    ensures
        r == has_text(match_views(results@), text@),
{
    let ghost out = match_views(results@);
    let mut i: usize = 0;
    while i < results.len()
        invariant
            i <= results.len(),
            out == match_views(results@),
            forall|x: int| 0 <= x < i ==> (#[trigger] out[x]).pathway.text() != text@,
        decreases results.len() - i,
    {
        let held = results[i].pathway.to_string();
        if held == *text {
            assert(out[i as int].pathway.text() == text@);
            return true;
        }
        i += 1;
    }
    false
}

/// Expands one directory: every scorable node between one and
/// `max_depth` levels below `dir` is scored, and becomes a match where
/// its score reaches `threshold` and no match has its pathway text.
fn expand_dir<F: Fn(&Vec<u32>) -> Score>(
    storage: &MemoryStorage,
    score_of: &F,
    dir: &Pathway,
    threshold: Score,
    max_depth: usize,
    results: &mut Vec<MatchedNode>,
)
    requires
        forall|v: &Vec<u32>| call_requires(*score_of, (v,)),
    ensures
        expansion(
            *score_of,
            storage.nodes(),
            seq![dir@],
            max_depth as int,
            threshold,
            match_views(old(results)@),
            match_views(final(results)@),
        ),
{
    let ghost nodes = storage.nodes();
    let ghost base = match_views(results@);
    let ghost depth = max_depth as int;
    let children = match storage.get_children(dir, max_depth) {
        Ok(children) => children,
        Err(_) => Vec::new(),
    };
    let ghost keys = choose|keys: Seq<Seq<char>>| #[trigger]
        selects(nodes, below(dir@, depth), keys) && node_views(children@) == selected(nodes, keys);
    assert(selects(nodes, below(dir@, depth), keys) && node_views(children@) == selected(nodes, keys));
    assert(keys.len() == children.len()) by {
        assert(node_views(children@).len() == selected(nodes, keys).len());
    }
    let mut b: usize = 0;
    while b < children.len()
        invariant
            b <= children.len(),
            nodes == storage.nodes(),
            depth == max_depth as int,
            keys.len() == children.len(),
            selects(nodes, below(dir@, depth), keys),
            node_views(children@) == selected(nodes, keys),
            forall|v: &Vec<u32>| call_requires(*score_of, (v,)),
            base.is_prefix_of(match_views(results@)),
            forall|i: int|
                base.len() <= i < results.len() ==> gained_below(
                    *score_of,
                    nodes,
                    dir@,
                    depth,
                    threshold,
                    #[trigger] match_views(results@)[i],
                ),
            forall|i: int, j: int|
                0 <= i < j < results.len() && base.len() <= j ==> (#[trigger] match_views(
                    results@,
                )[i]).pathway.text() != (#[trigger] match_views(results@)[j]).pathway.text(),
            forall|x: int|
                0 <= x < b && scorable(nodes, #[trigger] keys[x]) ==> settled(
                    *score_of,
                    nodes,
                    threshold,
                    match_views(results@),
                    keys[x],
                ),
        decreases children.len() - b,
    {
        let child = &children[b];
        let ghost k = keys[b as int];
        let ghost before = match_views(results@);
        proof {
            assert(node_views(children@)[b as int] == selected(nodes, keys)[b as int]);
            assert(child@ == nodes[k]);
            assert(nodes.contains_key(k) && below(dir@, depth)(nodes[k]));
        }
        if !child.is_directory && child.embedding.len() > 0 {
            let score = score_of(&child.embedding);
            if score >= threshold {
                let text = child.pathway.to_string();
                if !find_text(results, &text) {
                    let found = make_match(&child.pathway, child, score);
                    results.push(found);
                    proof {
                        let after = match_views(results@);
                        assert(after =~= before.push(MatchedNodeView::of(nodes[k].pathway, nodes[k], score)));
                        assert(gained_below(*score_of, nodes, dir@, depth, threshold, after[before.len() as int])) by {
                            let v = child.embedding;
                            assert(scorable(nodes, k) && below(dir@, depth)(nodes[k]) && v@
                                == nodes[k].embedding && call_ensures(*score_of, (&v,), score));
                        }
                        assert forall|i: int| base.len() <= i < after.len() implies gained_below(
                            *score_of,
                            nodes,
                            dir@,
                            depth,
                            threshold,
                            #[trigger] after[i],
                        ) by {
                            if i < before.len() {
                                assert(after[i] == before[i]);
                            }
                        }
                        assert forall|i: int, j: int|
                            0 <= i < j < after.len() && base.len() <= j implies (#[trigger] after[i]).pathway.text()
                            != (#[trigger] after[j]).pathway.text() by {
                            assert(after[i] == before[i]);
                            if j < before.len() {
                                assert(after[j] == before[j]);
                            } else {
                                assert(after[j].pathway.text() == text@);
                            }
                        }
                        assert(after[before.len() as int].pathway.text() == nodes[k].pathway.text());
                        assert(has_text(after, nodes[k].pathway.text()));
                    }
                }
            } else {
                proof {
                    let v = child.embedding;
                    assert(v@ == nodes[k].embedding && call_ensures(*score_of, (&v,), score) && score
                        < threshold);
                }
            }
        }
        proof {
            let after = match_views(results@);
            assert(before.is_prefix_of(after));
            assert forall|x: int| 0 <= x < b + 1 && scorable(nodes, #[trigger] keys[x]) implies settled(
                *score_of,
                nodes,
                threshold,
                after,
                keys[x],
            ) by {
                if x < b {
                    lemma_settled_grows(*score_of, nodes, threshold, before, after, keys[x]);
                }
            }
        }
        b += 1;
    }
    proof {
        let out = match_views(results@);
        let dirs = seq![dir@];
        assert forall|i: int| base.len() <= i < out.len() implies gained(
            *score_of,
            nodes,
            dirs,
            depth,
            threshold,
            #[trigger] out[i],
        ) by {
            assert(gained_below(*score_of, nodes, dirs[0], depth, threshold, out[i]));
        }
        assert forall|k: Seq<char>, a: int|
            0 <= a < dirs.len() && scorable(nodes, k) && below(#[trigger] dirs[a], depth)(
                #[trigger] nodes[k],
            ) implies settled(*score_of, nodes, threshold, out, k) by {
            assert(keys.contains(k));
            let x = choose|x: int| 0 <= x < keys.len() && keys[x] == k;
            assert(scorable(nodes, keys[x]));
        }
    }
}

/// An expansion of some directories, followed by the expansion of one
/// more, is the expansion of them all.
proof fn lemma_expansion_step<F: Fn(&Vec<u32>) -> Score>(
    score_of: F,
    nodes: Map<Seq<char>, NodeView>,
    dirs: Seq<PathwayView>,
    dir: PathwayView,
    max_depth: int,
    threshold: Score,
    base: Seq<MatchedNodeView>,
    mid: Seq<MatchedNodeView>,
    out: Seq<MatchedNodeView>,
)
    requires
        expansion(score_of, nodes, dirs, max_depth, threshold, base, mid),
        expansion(score_of, nodes, seq![dir], max_depth, threshold, mid, out),
    ensures
        expansion(score_of, nodes, dirs.push(dir), max_depth, threshold, base, out),
{
    let all = dirs.push(dir);
    let one = seq![dir];
    assert(base.is_prefix_of(out)) by {
        assert(base =~= out.subrange(0, base.len() as int)) by {
            assert forall|i: int| 0 <= i < base.len() implies base[i] == out[i] by {
                assert(base[i] == mid[i]);
                assert(mid[i] == out[i]);
            }
        }
    }
    assert forall|i: int| base.len() <= i < out.len() implies gained(
        score_of,
        nodes,
        all,
        max_depth,
        threshold,
        #[trigger] out[i],
    ) by {
        if i < mid.len() {
            assert(out[i] == mid[i]);
            assert(gained(score_of, nodes, dirs, max_depth, threshold, mid[i]));
            let a = choose|a: int|
                0 <= a < dirs.len() && gained_below(
                    score_of,
                    nodes,
                    #[trigger] dirs[a],
                    max_depth,
                    threshold,
                    mid[i],
                );
            assert(all[a] == dirs[a]);
        } else {
            assert(gained(score_of, nodes, one, max_depth, threshold, out[i]));
            let a = choose|a: int|
                0 <= a < one.len() && gained_below(
                    score_of,
                    nodes,
                    #[trigger] one[a],
                    max_depth,
                    threshold,
                    out[i],
                );
            assert(all[dirs.len() as int] == one[a]);
        }
    }
    assert forall|i: int, j: int| 0 <= i < j < out.len() && base.len() <= j implies (#[trigger] out[i]).pathway.text()
        != (#[trigger] out[j]).pathway.text() by {
        if j < mid.len() {
            assert(out[i] == mid[i]);
            assert(out[j] == mid[j]);
        }
    }
    assert forall|k: Seq<char>, a: int|
        0 <= a < all.len() && scorable(nodes, k) && below(#[trigger] all[a], max_depth)(
            #[trigger] nodes[k],
        ) implies settled(score_of, nodes, threshold, out, k) by {
        if a < dirs.len() {
            assert(all[a] == dirs[a]);
            lemma_settled_grows(score_of, nodes, threshold, mid, out, k);
        } else {
            assert(all[a] == one[0]);
        }
    }
}

/// What a hierarchical search over `candidates` returns.
///
/// It fails with `NodeNotFound` for the first candidate that counts and
/// has no node. Else the result starts with the direct matches, and goes
/// on with the expansion of the marked directories.
pub open spec fn hierarchical_outcome<F: Fn(&Vec<u32>) -> Score>(
    score_of: F,
    nodes: Map<Seq<char>, NodeView>,
    candidates: Seq<(PathwayView, Score)>,
    threshold: Score,
    max_depth: int,
    r: Result<Vec<MatchedNode>>,
) -> bool {
    let n = candidates.len() as int;
    let lost = first_lost(nodes, candidates, Some(threshold), 0, n);
    match r {
        Ok(out) => lost == n && widened(
            score_of,
            nodes,
            candidates,
            threshold,
            max_depth,
            match_views(out@),
        ),
        Err(e) => lost < n && e is NodeNotFound && e.detail() == candidates[lost].0.text(),
    }
}

/// `out` holds the direct matches of the candidates, widened by the
/// expansion of the directories that they mark.
pub open spec fn widened<F: Fn(&Vec<u32>) -> Score>(
    score_of: F,
    nodes: Map<Seq<char>, NodeView>,
    candidates: Seq<(PathwayView, Score)>,
    threshold: Score,
    max_depth: int,
    out: Seq<MatchedNodeView>,
) -> bool {
    exists|dirs: Seq<PathwayView>|
        lists_marks(nodes, candidates, threshold, candidates.len() as int, dirs) && #[trigger] expansion(
            score_of,
            nodes,
            dirs,
            max_depth,
            threshold,
            direct_matches(nodes, candidates, threshold),
            out,
        )
}

/// The scores of a list of matches.
pub open spec fn match_scores(pool: Seq<MatchedNodeView>) -> Seq<Score> {
    Seq::new(pool.len(), |i: int| pool[i].score)
}

/// `out` holds the best `limit` matches of `pool`: highest score first,
/// equal scores in the order of `pool`.
pub open spec fn is_top(pool: Seq<MatchedNodeView>, limit: int, out: Seq<MatchedNodeView>) -> bool {
    exists|order: Seq<usize>| #[trigger]
        is_ranking(order, match_scores(pool), Seq::empty()) && out.len() == lesser(
            limit,
            pool.len() as int,
        ) && forall|i: int| 0 <= i < out.len() ==> #[trigger] out[i] == pool[order[i] as int]
}

/// The best `limit` matches of `pool`, highest score first; matches of
/// equal score keep the order in which `pool` holds them.
pub fn top_matches(pool: &Vec<MatchedNode>, limit: usize) -> (out: Vec<MatchedNode>)
    ensures
        is_top(match_views(pool@), limit as int, match_views(out@)),
{
    let mut scores: Vec<Score> = Vec::new();
    let mut i: usize = 0;
    while i < pool.len()
        invariant
            i <= pool.len(),
            scores.len() == i,
            forall|x: int| 0 <= x < i ==> #[trigger] scores@[x] == pool@[x].score,
        decreases pool.len() - i,
    {
        scores.push(pool[i].score);
        i += 1;
    }
    let texts: Vec<Vec<char>> = Vec::new();
    let order = ranking(&scores, &texts);
    let take = if limit < pool.len() {
        limit
    } else {
        pool.len()
    };
    let mut out: Vec<MatchedNode> = Vec::new();
    let mut x: usize = 0;
    while x < take
        invariant
            x <= take <= pool.len(),
            order.len() == pool.len(),
            forall|y: int| 0 <= y < order.len() ==> (#[trigger] order@[y]) < pool.len(),
            out.len() == x,
            forall|y: int| 0 <= y < x ==> (#[trigger] out@[y])@ == pool@[order@[y] as int]@,
        decreases take - x,
    {
        out.push(pool[order[x]].clone());
        x += 1;
    }
    proof {
        assert(scores@ =~= match_scores(match_views(pool@)));
        assert(crate::ranking::text_views(texts@) =~= Seq::<Seq<char>>::empty());
        assert(is_ranking(order@, match_scores(match_views(pool@)), Seq::empty()));
    }
    out
}

/// Three times `limit`, or the greatest number where that is beyond it.
pub open spec fn oversampled(limit: usize) -> usize {
    if limit > usize::MAX / 3 {
        usize::MAX
    } else {
        (limit * 3) as usize
    }
}

/// The pool of matches that a query assembles from its candidates.
pub open spec fn assembled<F: Fn(&Vec<u32>) -> Score>(
    score_of: F,
    nodes: Map<Seq<char>, NodeView>,
    candidates: Seq<(PathwayView, Score)>,
    hierarchical: bool,
    limit: int,
    threshold: Score,
    max_depth: int,
    pool: Seq<MatchedNodeView>,
) -> bool {
    if hierarchical {
        first_lost(nodes, candidates, Some(threshold), 0, candidates.len() as int) == candidates.len()
            && widened(score_of, nodes, candidates, threshold, max_depth, pool)
    } else {
        let upto = lesser(limit, candidates.len() as int);
        first_lost(nodes, candidates, None, 0, upto) == upto && pool == flat_matches(
            nodes,
            candidates,
            upto,
        )
    }
}

/// The candidate for which a query fails: the first that is looked at
/// and has no node.
pub open spec fn lost_candidate(
    nodes: Map<Seq<char>, NodeView>,
    candidates: Seq<(PathwayView, Score)>,
    hierarchical: bool,
    limit: int,
    threshold: Score,
) -> int {
    if hierarchical {
        first_lost(nodes, candidates, Some(threshold), 0, candidates.len() as int)
    } else {
        first_lost(nodes, candidates, None, 0, lesser(limit, candidates.len() as int))
    }
}

/// How many candidates a query looks at.
pub open spec fn looked_at(candidates: Seq<(PathwayView, Score)>, hierarchical: bool, limit: int) -> int {
    if hierarchical {
        candidates.len() as int
    } else {
        lesser(limit, candidates.len() as int)
    }
}

/// What a query returns.
///
/// The index is searched for three times `limit` candidates. The query
/// fails when that search fails, or with `NodeNotFound` for the first
/// candidate looked at that has no node. Else it returns the best
/// `limit` matches of the pool assembled from the candidates, and the
/// number of candidates.
pub open spec fn query_outcome<F: Fn(&Vec<u32>) -> Score>(
    score_of: F,
    nodes: Map<Seq<char>, NodeView>,
    vectors: Map<Seq<char>, Seq<u32>>,
    namespace: Option<Namespace>,
    hierarchical: bool,
    limit: usize,
    threshold: Score,
    max_depth: int,
    r: Result<QueryResult>,
) -> bool {
    match r {
        Ok(result) => exists|candidates: Seq<(PathwayView, Score)>, pool: Seq<MatchedNodeView>|
            result.total_searched == candidates.len() && #[trigger] query_found(
                score_of,
                nodes,
                vectors,
                namespace,
                hierarchical,
                limit,
                threshold,
                max_depth,
                candidates,
                pool,
                match_views(result.matches@),
            ),
        Err(e) => (e is InvalidPathway && search_fails(vectors, e.detail())) || (e is NodeNotFound
            && exists|candidates: Seq<(PathwayView, Score)>| #[trigger]
            query_lost(
                score_of,
                nodes,
                vectors,
                namespace,
                hierarchical,
                limit,
                threshold,
                candidates,
                e.detail(),
            )),
    }
}

/// A query succeeds with `out`: `candidates` answer the search of the
/// index, `pool` is assembled from them, and `out` holds the best
/// matches of `pool`.
pub open spec fn query_found<F: Fn(&Vec<u32>) -> Score>(
    score_of: F,
    nodes: Map<Seq<char>, NodeView>,
    vectors: Map<Seq<char>, Seq<u32>>,
    namespace: Option<Namespace>,
    hierarchical: bool,
    limit: usize,
    threshold: Score,
    max_depth: int,
    candidates: Seq<(PathwayView, Score)>,
    pool: Seq<MatchedNodeView>,
    out: Seq<MatchedNodeView>,
) -> bool {
    &&& search_found(score_of, vectors, namespace, oversampled(limit) as int, threshold, candidates)
    &&& assembled(score_of, nodes, candidates, hierarchical, limit as int, threshold, max_depth, pool)
    &&& is_top(pool, limit as int, out)
}

/// A query fails for want of a node: `candidates` answer the search of
/// the index, and the first of them that is looked at and has no node
/// has the pathway text `text`.
pub open spec fn query_lost<F: Fn(&Vec<u32>) -> Score>(
    score_of: F,
    nodes: Map<Seq<char>, NodeView>,
    vectors: Map<Seq<char>, Seq<u32>>,
    namespace: Option<Namespace>,
    hierarchical: bool,
    limit: usize,
    threshold: Score,
    candidates: Seq<(PathwayView, Score)>,
    text: Seq<char>,
) -> bool {
    let lost = lost_candidate(nodes, candidates, hierarchical, limit as int, threshold);
    &&& search_found(score_of, vectors, namespace, oversampled(limit) as int, threshold, candidates)
    &&& lost < looked_at(candidates, hierarchical, limit as int)
    &&& text == candidates[lost].0.text()
}

/// The limit that a query works with: its own, or the default.
pub open spec fn chosen_limit(options: Option<QueryOptions>, default_limit: usize) -> usize {
    match options {
        Some(o) => match o.limit {
            Some(l) => l,
            None => default_limit,
        },
        None => default_limit,
    }
}

/// The threshold that a query works with: its own, or the default.
pub open spec fn chosen_threshold(options: Option<QueryOptions>, default_threshold: Score) -> Score {
    match options {
        Some(o) => match o.threshold {
            Some(t) => t,
            None => default_threshold,
        },
        None => default_threshold,
    }
}

/// The namespace to which a query is confined, if any.
pub open spec fn chosen_namespace(options: Option<QueryOptions>) -> Option<Namespace> {
    match options {
        Some(o) => o.namespace,
        None => None,
    }
}

/// Milliseconds from `start` to `end`; zero where the clock went back.
fn elapsed_ms(start: i64, end: i64) -> (ms: u64)
    ensures
        end >= start ==> ms == (end - start) / 1000,
        end < start ==> ms == 0,
{
    if end >= start {
        let span: i128 = end as i128 - start as i128;
        (span / 1000) as u64
    } else {
        0
    }
}

/// The text by which a match is reranked: its summary where it has one,
/// else its brief.
pub open spec fn rerank_text(m: MatchedNodeView) -> Seq<char> {
    match m.summary {
        Some(s) => s,
        None => m.brief,
    }
}

/// The documents that stand for a list of matches before a reranker:
/// each under the text of its pathway, in order.
pub fn rerank_documents(matches: &Vec<MatchedNode>) -> (out: Vec<RerankDocument>)
    ensures
        out.len() == matches.len(),
        forall|i: int|
            0 <= i < out.len() ==> (#[trigger] out@[i]).id@ == matches@[i]@.pathway.text() && out@[i].text@
                == rerank_text(matches@[i]@),
{
    let mut out: Vec<RerankDocument> = Vec::new();
    let mut i: usize = 0;
    while i < matches.len()
        invariant
            i <= matches.len(),
            out.len() == i,
            forall|x: int|
                0 <= x < i ==> (#[trigger] out@[x]).id@ == matches@[x]@.pathway.text() && out@[x].text@
                    == rerank_text(matches@[x]@),
        decreases matches.len() - i,
    {
        let text = match &matches[i].summary {
            Some(s) => s.clone(),
            None => matches[i].brief.clone(),
        };
        out.push(RerankDocument { id: matches[i].pathway.to_string(), text });
        i += 1;
    }
    out
}

/// The positions that a reranker's answer picks out of `n` matches: the
/// positions that it names, in its order, without those beyond `n` and
/// without repeats, at most `top_n` of them.
pub open spec fn picks(ranked: Seq<usize>, n: int, top_n: int) -> Seq<usize>
    decreases ranked.len(),
{
    if ranked.len() == 0 {
        Seq::empty()
    } else {
        let before = picks(ranked.drop_last(), n, top_n);
        let at = ranked.last();
        if before.len() < top_n && at < n && !before.contains(at) {
            before.push(at)
        } else {
            before
        }
    }
}

/// The positions that a list of rerank results names.
pub open spec fn named_positions(ranked: Seq<RerankResult>) -> Seq<usize> {
    Seq::new(ranked.len(), |i: int| ranked[i].index)
}

/// The matches in the order that a reranker gave: those at the
/// positions that its answer picks. The matches themselves are as they
/// were; only their order and number change.
pub fn apply_rerank(matches: &Vec<MatchedNode>, ranked: &Vec<RerankResult>, top_n: usize) -> (out: Vec<
    MatchedNode,
>)
    ensures
        out.len() == picks(named_positions(ranked@), matches.len() as int, top_n as int).len(),
        forall|i: int|
            0 <= i < out.len() ==> (#[trigger] out@[i])@ == matches@[picks(
                named_positions(ranked@),
                matches.len() as int,
                top_n as int,
            )[i] as int]@,
{
    let ghost named = named_positions(ranked@);
    let ghost n = matches.len() as int;
    let ghost cap = top_n as int;
    let mut used: Vec<bool> = Vec::new();
    let mut k: usize = 0;
    while k < matches.len()
        invariant
            k <= matches.len(),
            used.len() == k,
            forall|x: int| 0 <= x < k ==> !(#[trigger] used@[x]),
        decreases matches.len() - k,
    {
        used.push(false);
        k += 1;
    }
    let mut out: Vec<MatchedNode> = Vec::new();
    let ghost mut taken: Seq<usize> = Seq::empty();
    let mut j: usize = 0;
    assert(named.take(0) == Seq::<usize>::empty());
    while j < ranked.len()
        invariant
            j <= ranked.len(),
            named == named_positions(ranked@),
            n == matches.len(),
            cap == top_n,
            used.len() == matches.len(),
            taken == picks(named.take(j as int), n, cap),
            out.len() == taken.len(),
            forall|x: int| 0 <= x < taken.len() ==> (#[trigger] taken[x]) < n,
            forall|x: int| 0 <= x < out.len() ==> (#[trigger] out@[x])@ == matches@[taken[x] as int]@,
            forall|p: int| 0 <= p < used.len() ==> (#[trigger] used@[p] <==> taken.contains(p as usize)),
        decreases ranked.len() - j,
    {
        let at = ranked[j].index;
        proof {
            assert(named.take(j + 1).drop_last() == named.take(j as int));
            assert(named.take(j + 1).last() == at);
        }
        if out.len() < top_n && at < matches.len() && !used[at] {
            let ghost before = taken;
            out.push(matches[at].clone());
            used.set(at, true);
            proof {
                taken = before.push(at);
                assert forall|p: int| 0 <= p < used.len() implies (#[trigger] used@[p] <==> taken.contains(
                    p as usize,
                )) by {
                    if p == at {
                        assert(taken[before.len() as int] == at);
                    } else {
                        if before.contains(p as usize) {
                            let x = choose|x: int| 0 <= x < before.len() && before[x] == p as usize;
                            assert(taken[x] == p as usize);
                        }
                        if taken.contains(p as usize) {
                            let x = choose|x: int| 0 <= x < taken.len() && taken[x] == p as usize;
                            assert(x < before.len());
                            assert(before[x] == p as usize);
                        }
                    }
                }
            }
        } else {
            proof {
                if at < matches.len() {
                    assert(used@[at as int] <==> taken.contains(at));
                }
            }
        }
        j += 1;
    }
    assert(named.take(j as int) == named);
    out
}

/// Hierarchical retriever for semantic search.
pub struct Retriever {
    config: RetrievalConfig,
}

impl Retriever {
    /// A retriever that works under `config`.
    pub fn new(config: &RetrievalConfig) -> (r: Retriever)
        ensures
            r.default_limit() == config.default_limit,
            r.score_threshold() == config.score_threshold,
            r.hierarchical() == config.hierarchical,
            r.max_depth() == config.max_depth,
    {
        Retriever { config: config.clone() }
    }

    /// The result limit of a query that names none.
    pub closed spec fn default_limit(&self) -> usize {
        self.config.default_limit
    }

    /// The score threshold of a query that names none.
    pub closed spec fn score_threshold(&self) -> Score {
        self.config.score_threshold
    }

    /// Whether a query expands directories.
    pub closed spec fn hierarchical(&self) -> bool {
        self.config.hierarchical
    }

    /// How many levels a directory is expanded.
    pub closed spec fn max_depth(&self) -> usize {
        self.config.max_depth
    }

    /// The flat path: a match for each of the first `limit` candidates,
    /// carrying the digest of its node.
    pub fn flat_search(
        &self,
        storage: &MemoryStorage,
        candidates: &[(Pathway, Score)],
        limit: usize,
    ) -> (r: Result<Vec<MatchedNode>>)
        ensures
            flat_outcome(storage.nodes(), ranked_views(candidates@), limit as int, r),
    {
        let upto = if limit < candidates.len() {
            limit
        } else {
            candidates.len()
        };
        let ghost nodes = storage.nodes();
        let ghost cands = ranked_views(candidates@);
        let mut out: Vec<MatchedNode> = Vec::new();
        let mut i: usize = 0;
        while i < upto
            invariant
                i <= upto <= candidates.len(),
                upto == lesser(limit as int, candidates.len() as int),
                nodes == storage.nodes(),
                cands == ranked_views(candidates@),
                out.len() == i,
                first_lost(nodes, cands, None, 0, upto as int) == first_lost(
                    nodes,
                    cands,
                    None,
                    i as int,
                    upto as int,
                ),
                forall|x: int| 0 <= x < i ==> (#[trigger] out@[x])@ == match_of(nodes, cands[x]),
            decreases upto - i,
        {
            let pathway = &candidates[i].0;
            let score = candidates[i].1;
            assert(cands[i as int] == (pathway@, score));
            let node = match storage.get(pathway) {
                Ok(node) => node,
                Err(e) => {
                    assert(cands.len() == candidates.len());
                    assert(first_lost(nodes, cands, None, i as int, upto as int) == i);
                    return Err(e);
                },
            };
            assert(cands.len() == candidates.len());
            out.push(make_match(pathway, &node, score));
            i += 1;
        }
        assert(match_views(out@) =~= flat_matches(nodes, cands, upto as int));
        Ok(out)
    }

    /// The hierarchical path. Candidates below `threshold` are passed
    /// over. Of the others a leaf becomes a match and marks its parent
    /// directory, a directory marks itself. Each marked directory is then
    /// expanded: its scorable descendants, down to the retriever's depth,
    /// are scored by `score_of` and become matches where they reach
    /// `threshold` and no match has their pathway text.
    pub fn hierarchical_search<F: Fn(&Vec<u32>) -> Score>(
        &self,
        storage: &MemoryStorage,
        score_of: &F,
        initial_candidates: &[(Pathway, Score)],
        threshold: Score,
    ) -> (r: Result<Vec<MatchedNode>>)
        requires
            forall|v: &Vec<u32>| call_requires(*score_of, (v,)),
        ensures
            hierarchical_outcome(
                *score_of,
                storage.nodes(),
                ranked_views(initial_candidates@),
                threshold,
                self.max_depth() as int,
                r,
            ),
    {
        let ghost nodes = storage.nodes();
        let ghost cands = ranked_views(initial_candidates@);
        let ghost depth = self.config.max_depth as int;
        let (mut results, marks) = match direct_hits(storage, initial_candidates, threshold) {
            Ok(found) => found,
            Err(e) => {
                return Err(e);
            },
        };
        let ghost base = match_views(results@);
        let ghost dirs = mark_views(marks@);
        let mut a: usize = 0;
        proof {
            assert(dirs.take(0) == Seq::<PathwayView>::empty());
            assert(base.is_prefix_of(base)) by {
                assert(base.subrange(0, base.len() as int) == base);
            }
        }
        while a < marks.len()
            invariant
                a <= marks.len(),
                nodes == storage.nodes(),
                dirs == mark_views(marks@),
                depth == self.config.max_depth as int,
                forall|v: &Vec<u32>| call_requires(*score_of, (v,)),
                expansion(
                    *score_of,
                    nodes,
                    dirs.take(a as int),
                    depth,
                    threshold,
                    base,
                    match_views(results@),
                ),
            decreases marks.len() - a,
        {
            let ghost mid = match_views(results@);
            expand_dir(storage, score_of, &marks[a], threshold, self.config.max_depth, &mut results);
            proof {
                lemma_expansion_step(
                    *score_of,
                    nodes,
                    dirs.take(a as int),
                    marks@[a as int]@,
                    depth,
                    threshold,
                    base,
                    mid,
                    match_views(results@),
                );
                assert(dirs.take(a as int).push(marks@[a as int]@) == dirs.take(a + 1));
            }
            a += 1;
        }
        proof {
            assert(dirs.take(a as int) == dirs);
            assert(widened(*score_of, nodes, cands, threshold, depth, match_views(results@)));
        }
        Ok(results)
    }

    /// Searches for the context that `score_of` scores best.
    ///
    /// The similarity index is searched for three times the limit of
    /// candidates at or above the threshold. The candidates are
    /// assembled into matches, by the hierarchical path where the
    /// retriever is set to it, else by the flat path. The result holds
    /// the best matches, at most the limit of them, highest score first.
    /// Limit and threshold are those of `options` where it names them,
    /// else those of the retriever.
    pub fn search<F: Fn(&Vec<u32>) -> Score>(
        &self,
        storage: &MemoryStorage,
        score_of: &F,
        options: Option<QueryOptions>,
        query_embedding_time_ms: u64,
    ) -> (r: Result<QueryResult>)
        requires
            forall|v: &Vec<u32>| call_requires(*score_of, (v,)),
        ensures
            query_outcome(
                *score_of,
                storage.nodes(),
                storage.vectors(),
                chosen_namespace(options),
                self.hierarchical(),
                chosen_limit(options, self.default_limit()),
                chosen_threshold(options, self.score_threshold()),
                self.max_depth() as int,
                r,
            ),
            r is Ok ==> r->Ok_0.query_embedding_time_ms == query_embedding_time_ms,
    {
        let (namespace, own_limit, own_threshold) = match &options {
            Some(o) => (o.namespace, o.limit, o.threshold),
            None => (None, None, None),
        };
        let limit = match own_limit {
            Some(l) => l,
            None => self.config.default_limit,
        };
        let threshold = match own_threshold {
            Some(t) => t,
            None => self.config.score_threshold,
        };
        let wanted = if limit > usize::MAX / 3 {
            usize::MAX
        } else {
            limit * 3
        };
        assert(limit == chosen_limit(options, self.default_limit()));
        assert(threshold == chosen_threshold(options, self.score_threshold()));
        assert(namespace == chosen_namespace(options));
        assert(wanted == oversampled(limit));
        let start = now();
        let candidates = match storage.search_vector(score_of, namespace, wanted, threshold) {
            Ok(candidates) => candidates,
            Err(e) => {
                return Err(e);
            },
        };
        let ghost cands = ranked_views(candidates@);
        let pool = if self.config.hierarchical {
            match self.hierarchical_search(storage, score_of, candidates.as_slice(), threshold) {
                Ok(pool) => pool,
                Err(e) => {
                    assert(query_lost(
                        *score_of,
                        storage.nodes(),
                        storage.vectors(),
                        namespace,
                        true,
                        limit,
                        threshold,
                        cands,
                        e.detail(),
                    ));
                    return Err(e);
                },
            }
        } else {
            match self.flat_search(storage, candidates.as_slice(), limit) {
                Ok(pool) => pool,
                Err(e) => {
                    assert(query_lost(
                        *score_of,
                        storage.nodes(),
                        storage.vectors(),
                        namespace,
                        false,
                        limit,
                        threshold,
                        cands,
                        e.detail(),
                    ));
                    return Err(e);
                },
            }
        };
        let matches = top_matches(&pool, limit);
        let search_time_ms = elapsed_ms(start, now());
        let result = QueryResult {
            matches,
            total_searched: candidates.len(),
            query_embedding_time_ms,
            search_time_ms,
        };
        assert(result.total_searched == cands.len() && query_found(
            *score_of,
            storage.nodes(),
            storage.vectors(),
            namespace,
            self.config.hierarchical,
            limit,
            threshold,
            self.config.max_depth as int,
            cands,
            match_views(pool@),
            match_views(result.matches@),
        ));
        let r: Result<QueryResult> = Ok(result);
        assert(r->Ok_0 == result);
        r
    }
}

} // verus!

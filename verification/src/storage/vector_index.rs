//! The similarity index: a map from pathway text to embedding vector,
//! searched by scoring every vector.
//!
//! The index does no arithmetic on vectors. A search is given the scoring
//! function; it applies it to each stored vector, drops what falls below
//! the threshold and hands out the best hits.

use dashmap::DashMap;
use vstd::prelude::*;

use crate::config::VectorIndexConfig;
use crate::error::Result;
use crate::node::Namespace;
use crate::pathway::{parse_text, Pathway, PathwayView};
use crate::ranking::{
    has_position, is_permutation, is_ranking, lemma_text_before_total, precedes, ranking,
    text_before, text_views, tie_text, Score,
};
use crate::storage::maps::{
    entry_keys, lists_vectors, no_vectors, vector_entries, vectors_insert, vectors_len,
    vectors_list, vectors_new, vectors_remove,
};
use crate::storage::select::{pick, picked_has};
use crate::text::chars_of;

verus! {

/// In-memory similarity index.
pub struct VectorIndex {
    vectors: DashMap<String, Vec<u32>>,
    config: VectorIndexConfig,
}

/// Whether a namespace filter lets a namespace through.
pub open spec fn admits(filter: Option<Namespace>, namespace: Namespace) -> bool {
    match filter {
        Some(wanted) => wanted == namespace,
        None => true,
    }
}

/// The entry under `key` takes part in a search: its key reads as a
/// pathway of an admitted namespace.
pub open spec fn is_candidate(
    content: Map<Seq<char>, Seq<u32>>,
    filter: Option<Namespace>,
    key: Seq<char>,
) -> bool {
    content.contains_key(key) && parse_text(key) is Ok && admits(
        filter,
        parse_text(key)->Ok_0.namespace,
    )
}

/// The entry under `key` is a hit: it takes part and its score reaches
/// the threshold.
pub open spec fn is_hit(
    content: Map<Seq<char>, Seq<u32>>,
    observed: Map<Seq<char>, Score>,
    filter: Option<Namespace>,
    threshold: Score,
    key: Seq<char>,
) -> bool {
    is_candidate(content, filter, key) && observed.contains_key(key) && observed[key] >= threshold
}

/// `observed` holds, for exactly the entries that take part, a score
/// that the scoring function gives to the vector of the entry.
pub open spec fn scored_by<F: Fn(&Vec<u32>) -> Score>(
    score_of: F,
    content: Map<Seq<char>, Seq<u32>>,
    filter: Option<Namespace>,
    observed: Map<Seq<char>, Score>,
) -> bool {
    &&& forall|k: Seq<char>| #[trigger]
        observed.contains_key(k) ==> is_candidate(content, filter, k) && exists|v: Vec<u32>|
            v@ == content[k] && call_ensures(score_of, (&v,), observed[k])
    &&& forall|k: Seq<char>| #[trigger] is_candidate(content, filter, k) ==> observed.contains_key(k)
}

/// The hit under `a` is handed out before the hit under `b`: its score
/// is higher, or as high with the greater key text.
pub open spec fn key_outranks(observed: Map<Seq<char>, Score>, a: Seq<char>, b: Seq<char>) -> bool {
    observed[a] > observed[b] || (observed[a] == observed[b] && text_before(b, a))
}

/// `out` is the answer to a search: the hits under `keys`, best first,
/// at most `limit` of them, and no hit that was left out would come
/// before one that is in.
pub open spec fn is_answer(
    content: Map<Seq<char>, Seq<u32>>,
    observed: Map<Seq<char>, Score>,
    filter: Option<Namespace>,
    limit: int,
    threshold: Score,
    keys: Seq<Seq<char>>,
    out: Seq<(PathwayView, Score)>,
) -> bool {
    &&& keys.len() == out.len()
    &&& out.len() <= limit
    &&& forall|i: int|
        0 <= i < keys.len() ==> is_hit(content, observed, filter, threshold, #[trigger] keys[i])
            && out[i] == (parse_text(keys[i])->Ok_0, observed[keys[i]])
    &&& forall|i: int, j: int|
        0 <= i < j < keys.len() ==> key_outranks(observed, #[trigger] keys[i], #[trigger] keys[j])
    &&& forall|k: Seq<char>| #[trigger]
        is_hit(content, observed, filter, threshold, k) && !keys.contains(k) ==> out.len() == limit
            && forall|i: int| 0 <= i < keys.len() ==> key_outranks(observed, #[trigger] keys[i], k)
}

/// What a list of ranked pathways holds.
pub open spec fn ranked_views(out: Seq<(Pathway, Score)>) -> Seq<(PathwayView, Score)> {
    Seq::new(out.len(), |i: int| (out[i].0@, out[i].1))
}

/// What a search over `content` returns.
///
/// It fails exactly when some key of the index does not read as a
/// pathway, with the error of one such key. Else every entry of an
/// admitted namespace is scored once by `score_of`, and the result is
/// the answer for those scores.
pub open spec fn search_outcome<F: Fn(&Vec<u32>) -> Score>(
    score_of: F,
    content: Map<Seq<char>, Seq<u32>>,
    filter: Option<Namespace>,
    limit: int,
    threshold: Score,
    r: Result<Vec<(Pathway, Score)>>,
) -> bool {
    match r {
        Ok(out) => search_found(score_of, content, filter, limit, threshold, ranked_views(out@)),
        Err(e) => e is InvalidPathway && search_fails(content, e.detail()),
    }
}

/// A search over `content` succeeds with `out`: every key reads as a
/// pathway, and `out` is the answer for scores that `score_of` gives.
pub open spec fn search_found<F: Fn(&Vec<u32>) -> Score>(
    score_of: F,
    content: Map<Seq<char>, Seq<u32>>,
    filter: Option<Namespace>,
    limit: int,
    threshold: Score,
    out: Seq<(PathwayView, Score)>,
) -> bool {
    &&& forall|k: Seq<char>| content.contains_key(k) ==> parse_text(k) is Ok
    &&& exists|observed: Map<Seq<char>, Score>, keys: Seq<Seq<char>>|
        scored_by(score_of, content, filter, observed) && #[trigger] is_answer(
            content,
            observed,
            filter,
            limit,
            threshold,
            keys,
            out,
        )
}

/// A search over `content` fails with the reason `detail`: some key is
/// no pathway, for that reason.
pub open spec fn search_fails(content: Map<Seq<char>, Seq<u32>>, detail: Seq<char>) -> bool {
    exists|k: Seq<char>|
        content.contains_key(k) && parse_text(k) is Err && detail == #[trigger] parse_text(k)->Err_0
}

/// Position of the entry with the key `k` in a list of entries.
pub open spec fn key_index(entries: Seq<(String, Vec<u32>)>, k: Seq<char>) -> int {
    choose|idx: int| 0 <= idx < entries.len() && (#[trigger] entries[idx]).0@ == k
}

/// The scores that a pass over `entries` has seen, by key.
pub open spec fn observed_scores(
    entries: Seq<(String, Vec<u32>)>,
    scored: Seq<Option<Score>>,
) -> Map<Seq<char>, Score> {
    Map::new(
        |k: Seq<char>|
            exists|idx: int|
                0 <= idx < entries.len() && (#[trigger] entries[idx]).0@ == k && scored[idx] is Some,
        |k: Seq<char>| scored[key_index(entries, k)]->Some_0,
    )
}

/// In a list without repeated keys, a key is found at its own place.
proof fn lemma_key_index(
    entries: Seq<(String, Vec<u32>)>,
    content: Map<Seq<char>, Seq<u32>>,
    idx: int,
)
    requires
        lists_vectors(entries, content),
        0 <= idx < entries.len(),
    ensures
        key_index(entries, entries[idx].0@) == idx,
        content.contains_key(entries[idx].0@),
        content[entries[idx].0@] == entries[idx].1@,
{
    let k = entries[idx].0@;
    let found = key_index(entries, k);
    assert(0 <= found < entries.len() && entries[found].0@ == k);
    if found < idx {
        assert(entries[found].0@ != entries[idx].0@);
    } else if idx < found {
        assert(entries[idx].0@ != entries[found].0@);
    }
}

/// Every key of the content stands at some place of its list.
proof fn lemma_listed(
    entries: Seq<(String, Vec<u32>)>,
    content: Map<Seq<char>, Seq<u32>>,
    k: Seq<char>,
)
    requires
        lists_vectors(entries, content),
        content.contains_key(k),
    ensures
        0 <= key_index(entries, k) < entries.len(),
        entries[key_index(entries, k)].0@ == k,
{
    assert(entry_keys(entries).contains(k));
    let idx = choose|idx: int| 0 <= idx < entry_keys(entries).len() && entry_keys(entries)[idx] == k;
    assert(entries[idx].0@ == k);
}

/// Whether the score of an entry makes it a hit.
pub open spec fn reaches(score: Option<Score>, threshold: Score) -> bool {
    score is Some && score->Some_0 >= threshold
}

/// The pathway of every key, in the order of the entries; the error of
/// the first key that is no pathway.
fn parse_keys(entries: &Vec<(String, Vec<u32>)>) -> (r: Result<Vec<Pathway>>)
    ensures
        match r {
            Ok(pathways) => pathways.len() == entries.len() && forall|idx: int|
                0 <= idx < entries.len() ==> parse_text((#[trigger] entries@[idx]).0@) is Ok
                    && pathways@[idx]@ == parse_text(entries@[idx].0@)->Ok_0,
            Err(e) => exists|idx: int|
                0 <= idx < entries.len() && parse_text((#[trigger] entries@[idx]).0@) is Err
                    && e is InvalidPathway && e.detail() == parse_text(entries@[idx].0@)->Err_0,
        },
{
    let mut pathways: Vec<Pathway> = Vec::new();
    let mut j: usize = 0;
    while j < entries.len()
        invariant
            j <= entries.len(),
            pathways.len() == j,
            forall|idx: int|
                0 <= idx < j ==> parse_text((#[trigger] entries@[idx]).0@) is Ok && pathways@[idx]@
                    == parse_text(entries@[idx].0@)->Ok_0,
        decreases entries.len() - j,
    {
        match Pathway::parse(entries[j].0.as_str()) {
            Ok(p) => {
                pathways.push(p);
            },
            Err(e) => {
                assert(parse_text(entries@[j as int].0@) is Err);
                return Err(e);
            },
        }
        j += 1;
    }
    Ok(pathways)
}

/// The keys of the hits that a ranking puts first.
pub open spec fn answer_keys(
    entries: Seq<(String, Vec<u32>)>,
    hits: Seq<usize>,
    order: Seq<usize>,
    take: int,
) -> Seq<Seq<char>> {
    Seq::new(take as nat, |i: int| entries[hits[order[i] as int] as int].0@)
}

/// The first `take` hits of a ranking are the answer to the search.
proof fn lemma_answer(
    content: Map<Seq<char>, Seq<u32>>,
    entries: Seq<(String, Vec<u32>)>,
    pathways: Seq<Pathway>,
    scored: Seq<Option<Score>>,
    filter: Option<Namespace>,
    limit: int,
    threshold: Score,
    hits: Seq<usize>,
    scores: Seq<Score>,
    texts: Seq<Seq<char>>,
    order: Seq<usize>,
    take: int,
    out: Seq<(PathwayView, Score)>,
)
    requires
        lists_vectors(entries, content),
        pathways.len() == entries.len(),
        scored.len() == entries.len(),
        forall|idx: int|
            0 <= idx < entries.len() ==> parse_text((#[trigger] entries[idx]).0@) is Ok
                && pathways[idx]@ == parse_text(entries[idx].0@)->Ok_0,
        forall|idx: int|
            0 <= idx < entries.len() ==> ((#[trigger] scored[idx]) is Some <==> admits(
                filter,
                pathways[idx]@.namespace,
            )),
        forall|x: int|
            0 <= x < hits.len() ==> (#[trigger] hits[x]) < scored.len() && reaches(
                scored[hits[x] as int],
                threshold,
            ),
        forall|x: int, y: int| 0 <= x < y < hits.len() ==> (#[trigger] hits[x]) < (#[trigger] hits[y]),
        forall|idx: int|
            0 <= idx < scored.len() && reaches(#[trigger] scored[idx], threshold) ==> picked_has(hits, idx),
        scores.len() == hits.len(),
        texts.len() == hits.len(),
        forall|x: int|
            0 <= x < hits.len() ==> (#[trigger] scores[x]) == scored[hits[x] as int]->Some_0,
        forall|x: int| 0 <= x < hits.len() ==> (#[trigger] texts[x]) == entries[hits[x] as int].0@,
        is_ranking(order, scores, texts),
        0 <= take <= hits.len(),
        take <= limit,
        take < hits.len() ==> take == limit,
        out.len() == take,
        forall|i: int|
            0 <= i < take ==> (#[trigger] out[i]) == (
                pathways[hits[order[i] as int] as int]@,
                scores[order[i] as int],
            ),
    ensures
        is_answer(
            content,
            observed_scores(entries, scored),
            filter,
            limit,
            threshold,
            answer_keys(entries, hits, order, take),
            out,
        ),
{
    let observed = observed_scores(entries, scored);
    let keys = answer_keys(entries, hits, order, take);
    // what is known of the hit at each place of the ranking
    assert forall|x: int| 0 <= x < hits.len() implies is_hit(
        content,
        observed,
        filter,
        threshold,
        #[trigger] texts[x],
    ) && observed[texts[x]] == scores[x] && parse_text(texts[x])->Ok_0 == pathways[hits[x] as int]@ by {
        let idx = hits[x] as int;
        lemma_key_index(entries, content, idx);
        assert(reaches(scored[idx], threshold));
        assert(entries[idx].0@ == texts[x]);
    }
    assert forall|x: int, y: int| 0 <= x < y < hits.len() implies #[trigger] texts[x] != #[trigger] texts[y] by {
        let a = hits[x] as int;
        let b = hits[y] as int;
        assert(a < b);
        assert(entries[a].0@ != entries[b].0@);
    }
    assert forall|a: int, b: int| 0 <= a < b < order.len() implies key_outranks(
        observed,
        texts[#[trigger] order[a] as int],
        texts[#[trigger] order[b] as int],
    ) by {
        let x = order[a] as int;
        let y = order[b] as int;
        assert(precedes(scores, texts, x, y));
        assert(tie_text(texts, x) == texts[x]);
        assert(tie_text(texts, y) == texts[y]);
        lemma_text_before_total(texts[x], texts[y]);
        assert(x != y);
        if x < y {
            assert(texts[x] != texts[y]);
        } else {
            assert(texts[y] != texts[x]);
        }
        assert(is_hit(content, observed, filter, threshold, texts[x]));
        assert(is_hit(content, observed, filter, threshold, texts[y]));
    }
    assert forall|i: int| 0 <= i < keys.len() implies is_hit(
        content,
        observed,
        filter,
        threshold,
        #[trigger] keys[i],
    ) && out[i] == (parse_text(keys[i])->Ok_0, observed[keys[i]]) by {
        let x = order[i] as int;
        assert(keys[i] == texts[x]);
        assert(is_hit(content, observed, filter, threshold, texts[x]));
    }
    assert forall|i: int, j: int| 0 <= i < j < keys.len() implies key_outranks(
        observed,
        #[trigger] keys[i],
        #[trigger] keys[j],
    ) by {
        assert(keys[i] == texts[order[i] as int]);
        assert(keys[j] == texts[order[j] as int]);
    }
    assert forall|k: Seq<char>| #[trigger]
        is_hit(content, observed, filter, threshold, k) && !keys.contains(k) implies out.len() == limit
        && forall|i: int| 0 <= i < keys.len() ==> key_outranks(observed, #[trigger] keys[i], k) by {
        lemma_listed(entries, content, k);
        let idx = key_index(entries, k);
        lemma_key_index(entries, content, idx);
        assert(scored[idx] is Some);
        assert(reaches(scored[idx], threshold));
        assert(picked_has(hits, idx));
        let x = choose|x: int| 0 <= x < hits.len() && #[trigger] hits[x] == idx;
        assert(texts[x] == k);
        assert(has_position(order, x));
        let p = choose|p: int| 0 <= p < order.len() && #[trigger] order[p] == x;
        if p < take {
            assert(keys[p] == k);
        }
        assert forall|i: int| 0 <= i < keys.len() implies key_outranks(
            observed,
            #[trigger] keys[i],
            k,
        ) by {
            assert(keys[i] == texts[order[i] as int]);
            assert(key_outranks(observed, texts[order[i] as int], texts[order[p] as int]));
        }
    }
}

impl VectorIndex {
    /// What the index holds: for each pathway text, the components of
    /// its vector.
    pub closed spec fn entries(&self) -> Map<Seq<char>, Seq<u32>> {
        vector_entries(self.vectors)
    }

    /// An empty index.
    pub fn new(config: &VectorIndexConfig) -> (index: VectorIndex)
        ensures
            index.entries() == no_vectors(),
    {
        VectorIndex { vectors: vectors_new(), config: config.clone() }
    }

    /// Puts `vector` under `pathway`, in place of what was there.
    pub fn add(&mut self, pathway: &Pathway, vector: &[u32]) -> (r: Result<()>)
        ensures
            r is Ok,
            final(self).entries() == old(self).entries().insert(pathway@.text(), vector@),
    {
        let copy = vstd::slice::slice_to_vec(vector);
        vectors_insert(&mut self.vectors, pathway.to_string(), copy);
        Ok(())
    }

    /// Takes out the vector under `pathway`, if there is one.
    pub fn remove(&mut self, pathway: &Pathway) -> (r: Result<()>)
        ensures
            r is Ok,
            final(self).entries() == old(self).entries().remove(pathway@.text()),
    {
        let key = pathway.to_string();
        vectors_remove(&mut self.vectors, key.as_str());
        Ok(())
    }

    /// Takes out the vector under the pathway text `key`, if there is one.
    pub(crate) fn remove_key(&mut self, key: &str)
        ensures
            final(self).entries() == old(self).entries().remove(key@),
    {
        vectors_remove(&mut self.vectors, key);
    }

    /// Number of vectors in the index.
    pub fn size(&self) -> (n: usize)
        ensures
            n == self.entries().len(),
    {
        vectors_len(&self.vectors)
    }

    /// The best hits for a scoring function.
    ///
    /// Every vector whose pathway lies in an admitted namespace is scored
    /// by `score_of`. Hits are the entries that score at least
    /// `threshold`; the result holds at most `limit` of them, highest
    /// score first, equal scores in descending order of pathway text.
    pub fn search<F: Fn(&Vec<u32>) -> Score>(
        &self,
        score_of: &F,
        namespace: Option<Namespace>,
        limit: usize,
        threshold: Score,
    ) -> (r: Result<Vec<(Pathway, Score)>>)
        requires
            forall|v: &Vec<u32>| call_requires(*score_of, (v,)),
        ensures
            search_outcome(*score_of, self.entries(), namespace, limit as int, threshold, r),
    {
        let entries = vectors_list(&self.vectors);
        let ghost content = self.entries();
        let pathways = match parse_keys(&entries) {
            Ok(pathways) => pathways,
            Err(e) => {
                proof {
                    let idx = choose|idx: int|
                        0 <= idx < entries.len() && parse_text((#[trigger] entries@[idx]).0@) is Err
                            && e is InvalidPathway && e.detail() == parse_text(
                            entries@[idx].0@,
                        )->Err_0;
                    lemma_key_index(entries@, content, idx);
                    assert(search_fails(content, e.detail()));
                }
                return Err(e);
            },
        };
        // score what the filter admits
        let mut scored: Vec<Option<Score>> = Vec::new();
        let mut j: usize = 0;
        while j < entries.len()
            invariant
                j <= entries.len(),
                pathways.len() == entries.len(),
                scored.len() == j,
                forall|v: &Vec<u32>| call_requires(*score_of, (v,)),
                forall|idx: int|
                    0 <= idx < j ==> ((#[trigger] scored@[idx]) is Some <==> admits(
                        namespace,
                        pathways@[idx]@.namespace,
                    )),
                forall|idx: int|
                    0 <= idx < j && (#[trigger] scored@[idx]) is Some ==> call_ensures(
                        *score_of,
                        (&entries@[idx].1,),
                        scored@[idx]->Some_0,
                    ),
            decreases entries.len() - j,
        {
            let admitted = match namespace {
                Some(wanted) => pathways[j].namespace() == wanted,
                None => true,
            };
            if admitted {
                let score = score_of(&entries[j].1);
                scored.push(Some(score));
            } else {
                scored.push(None);
            }
            j += 1;
        }
        let mut flags: Vec<bool> = Vec::new();
        let mut k: usize = 0;
        while k < scored.len()
            invariant
                k <= scored.len(),
                flags.len() == k,
                forall|idx: int| 0 <= idx < k ==> #[trigger] flags@[idx] == reaches(scored@[idx], threshold),
            decreases scored.len() - k,
        {
            let hit = match scored[k] {
                Some(score) => score >= threshold,
                None => false,
            };
            flags.push(hit);
            k += 1;
        }
        let hits = pick(&flags);
        proof {
            assert forall|idx: int|
                0 <= idx < scored.len() && reaches(#[trigger] scored@[idx], threshold) implies picked_has(
                hits@,
                idx,
            ) by {
                assert(flags@[idx]);
            }
        }
        let mut scores: Vec<Score> = Vec::new();
        let mut texts: Vec<Vec<char>> = Vec::new();
        let mut x: usize = 0;
        while x < hits.len()
            invariant
                x <= hits.len(),
                scores.len() == x,
                texts.len() == x,
                scored.len() == entries.len(),
                forall|y: int|
                    0 <= y < hits.len() ==> (#[trigger] hits@[y]) < scored.len() && reaches(
                        scored@[hits@[y] as int],
                        threshold,
                    ),
                forall|y: int|
                    0 <= y < x ==> (#[trigger] scores@[y]) == scored@[hits@[y] as int]->Some_0,
                forall|y: int| 0 <= y < x ==> (#[trigger] texts@[y])@ == entries@[hits@[y] as int].0@,
            decreases hits.len() - x,
        {
            let at = hits[x];
            // A hit has a score; the other arm is never taken.
            let score = match scored[at] {
                Some(score) => score,
                None => threshold,
            };
            scores.push(score);
            texts.push(chars_of(entries[at].0.as_str()));
            x += 1;
        }
        let order = ranking(&scores, &texts);
        let found = hits.len();
        let take = if limit < found {
            limit
        } else {
            found
        };
        let mut out: Vec<(Pathway, Score)> = Vec::new();
        let mut i: usize = 0;
        while i < take
            invariant
                i <= take <= found,
                found == hits.len(),
                scores.len() == found,
                pathways.len() == entries.len(),
                is_permutation(order@, found as int),
                forall|y: int| 0 <= y < hits.len() ==> (#[trigger] hits@[y]) < entries.len(),
                out.len() == i,
                forall|y: int|
                    0 <= y < i ==> (#[trigger] out@[y]).0@ == pathways@[hits@[order@[y] as int] as int]@
                        && out@[y].1 == scores@[order@[y] as int],
            decreases take - i,
        {
            let at = order[i];
            out.push((pathways[hits[at]].clone(), scores[at]));
            i += 1;
        }
        proof {
            let observed = observed_scores(entries@, scored@);
            let keys = answer_keys(entries@, hits@, order@, take as int);
            assert(text_views(texts@) =~= Seq::new(texts.len() as nat, |y: int| texts@[y]@));
            lemma_answer(
                content,
                entries@,
                pathways@,
                scored@,
                namespace,
                limit as int,
                threshold,
                hits@,
                scores@,
                text_views(texts@),
                order@,
                take as int,
                ranked_views(out@),
            );
            assert forall|k: Seq<char>| content.contains_key(k) implies parse_text(k) is Ok by {
                lemma_listed(entries@, content, k);
            }
            assert forall|k: Seq<char>| #[trigger]
                observed.contains_key(k) implies is_candidate(content, namespace, k) && exists|
                v: Vec<u32>,
            |
                v@ == content[k] && call_ensures(*score_of, (&v,), observed[k]) by {
                let idx = choose|idx: int|
                    0 <= idx < entries.len() && (#[trigger] entries@[idx]).0@ == k && scored@[idx] is Some;
                lemma_key_index(entries@, content, idx);
                assert(entries@[idx].1@ == content[k]);
                assert(call_ensures(*score_of, (&entries@[idx].1,), observed[k]));
            }
            assert forall|k: Seq<char>| #[trigger]
                is_candidate(content, namespace, k) implies observed.contains_key(k) by {
                lemma_listed(entries@, content, k);
                let idx = key_index(entries@, k);
                assert(scored@[idx] is Some);
            }
            assert(scored_by(*score_of, content, namespace, observed));
            assert(is_answer(
                content,
                observed,
                namespace,
                limit as int,
                threshold,
                keys,
                ranked_views(out@),
            ));
            assert(search_found(
                *score_of,
                content,
                namespace,
                limit as int,
                threshold,
                ranked_views(out@),
            ));
        }
        Ok(out)
    }
}

} // verus!

//! Ranking by score: the order in which scored items are handed out.
//!
//! A higher score comes first. Among equal scores the greater tie text
//! comes first, and among items equal in both the one that was given
//! first. This is a strict total order on the positions of the items, so
//! the ranking of a list is unique.

use vstd::prelude::*;

verus! {

/// A similarity score: an integer key, a greater key for a better match.
///
/// The library only compares scores. A measure on another scale is
/// brought in by an order-preserving encoding; `score_from_bits` is the
/// one for single-precision numbers.
pub type Score = i64;

/// The key of one half on the scale of `score_from_bits`.
pub const SCORE_HALF: Score = 0x3F00_0000;

/// Largest magnitude of a single-precision bit pattern that is a number:
/// the pattern of infinity.
pub const MAX_MAGNITUDE: u32 = 0x7F80_0000;

/// Whether a single-precision bit pattern is not a number.
pub open spec fn bits_not_a_number(bits: u32) -> bool {
    if bits >= 0x8000_0000 {
        bits - 0x8000_0000 > MAX_MAGNITUDE
    } else {
        bits > MAX_MAGNITUDE
    }
}

/// The key of a single-precision bit pattern: its magnitude bits as a
/// number, negated where the sign bit is set. Both zeros have key 0.
pub open spec fn bits_key(bits: u32) -> int {
    if bits >= 0x8000_0000 {
        -(bits - 0x8000_0000)
    } else {
        bits as int
    }
}

/// The score that stands for the single-precision number with the bit
/// pattern `bits`; `None` when the pattern is not a number.
pub fn score_from_bits(bits: u32) -> (r: Option<Score>)
    ensures
        bits_not_a_number(bits) ==> r.is_none(),
        !bits_not_a_number(bits) ==> r == Some(bits_key(bits) as Score),
{
    if bits >= 0x8000_0000 {
        let magnitude: u32 = bits - 0x8000_0000;
        if magnitude > MAX_MAGNITUDE {
            None
        } else {
            let m: i64 = magnitude as i64;
            Some(-m)
        }
    } else if bits > MAX_MAGNITUDE {
        None
    } else {
        Some(bits as i64)
    }
}

/// The single-precision bit pattern that a score stands for. A score
/// beyond the key of an infinity gives that infinity.
pub fn score_to_bits(score: Score) -> (bits: u32)
    ensures
        !bits_not_a_number(bits),
        -(MAX_MAGNITUDE as int) <= score <= MAX_MAGNITUDE as int ==> bits_key(bits) == score,
        score > MAX_MAGNITUDE as int ==> bits == MAX_MAGNITUDE,
        score < -(MAX_MAGNITUDE as int) ==> bits == 0x8000_0000u32 + MAX_MAGNITUDE,
{
    if score >= 0 {
        if score > MAX_MAGNITUDE as i64 {
            MAX_MAGNITUDE
        } else {
            score as u32
        }
    } else {
        if score < -(MAX_MAGNITUDE as i64) {
            0x8000_0000u32 + MAX_MAGNITUDE
        } else {
            let m: i64 = -score;
            0x8000_0000u32 + (m as u32)
        }
    }
}

/// Reading the bits of a score gives the score back.
pub proof fn law_score_bits_round_trip(bits: u32)
    requires
        !bits_not_a_number(bits),
    ensures
        -(MAX_MAGNITUDE as int) <= bits_key(bits) <= MAX_MAGNITUDE as int,
        bits_key(bits) == 0 <==> (bits == 0 || bits == 0x8000_0000u32),
{
}

/// Strict lexicographic order of texts by code point.
pub open spec fn text_before(a: Seq<char>, b: Seq<char>) -> bool
    decreases a.len(),
{
    if b.len() == 0 {
        false
    } else if a.len() == 0 {
        true
    } else if a[0] != b[0] {
        (a[0] as int) < (b[0] as int)
    } else {
        text_before(a.skip(1), b.skip(1))
    }
}

/// No text stands before itself.
pub proof fn lemma_text_before_irreflexive(a: Seq<char>)
    ensures
        !text_before(a, a),
    decreases a.len(),
{
    if a.len() > 0 {
        lemma_text_before_irreflexive(a.skip(1));
    }
}

/// Of two different texts exactly one stands before the other.
pub proof fn lemma_text_before_total(a: Seq<char>, b: Seq<char>)
    ensures
        a != b ==> (text_before(a, b) || text_before(b, a)),
        !(text_before(a, b) && text_before(b, a)),
    decreases a.len(),
{
    if a.len() > 0 && b.len() > 0 {
        if a[0] == b[0] {
            lemma_text_before_total(a.skip(1), b.skip(1));
            if a.skip(1) == b.skip(1) {
                assert(a =~= seq![a[0]] + a.skip(1));
                assert(b =~= seq![b[0]] + b.skip(1));
            }
        } else {
            assert(a[0] as int != b[0] as int);
        }
    } else if a.len() == 0 && b.len() == 0 {
        assert(a =~= b);
    } else if a.len() == 0 {
        assert(text_before(a, b));
    } else {
        assert(text_before(b, a));
    }
}

/// The order of texts is transitive.
pub proof fn lemma_text_before_transitive(a: Seq<char>, b: Seq<char>, c: Seq<char>)
    requires
        text_before(a, b),
        text_before(b, c),
    ensures
        text_before(a, c),
    decreases a.len(),
{
    if a.len() > 0 && b.len() > 0 && c.len() > 0 {
        if a[0] == b[0] && b[0] == c[0] {
            lemma_text_before_transitive(a.skip(1), b.skip(1), c.skip(1));
        }
    }
}

/// The code point of a character.
fn code_point(c: char) -> (n: u32)
    ensures
        n == c as int,
{
    c as u32
}

/// Whether `a` stands before `b` in the order of texts.
pub fn chars_before(a: &Vec<char>, b: &Vec<char>) -> (r: bool)
    ensures
        r == text_before(a@, b@),
{
    let mut i: usize = 0;
    assert(a@.skip(0) == a@ && b@.skip(0) == b@);
    while i < a.len() && i < b.len()
        invariant
            i <= a.len(),
            i <= b.len(),
            text_before(a@, b@) == text_before(a@.skip(i as int), b@.skip(i as int)),
        decreases a.len() - i,
    {
        let x = a[i];
        let y = b[i];
        let ghost ra = a@.skip(i as int);
        let ghost rb = b@.skip(i as int);
        assert(ra[0] == x && rb[0] == y);
        if x != y {
            return code_point(x) < code_point(y);
        }
        assert(ra.skip(1) == a@.skip(i + 1));
        assert(rb.skip(1) == b@.skip(i + 1));
        i += 1;
    }
    i < b.len()
}

/// The tie text of the item at `i`: empty where none is given.
pub open spec fn tie_text(texts: Seq<Seq<char>>, i: int) -> Seq<char> {
    if 0 <= i < texts.len() {
        texts[i]
    } else {
        Seq::empty()
    }
}

/// The item at `a` is better than the item at `b`: its score is higher,
/// or the scores are equal and its tie text is the greater.
pub open spec fn better(scores: Seq<Score>, texts: Seq<Seq<char>>, a: int, b: int) -> bool {
    scores[a] > scores[b] || (scores[a] == scores[b] && text_before(
        tie_text(texts, b),
        tie_text(texts, a),
    ))
}

/// The item at `a` is handed out before the item at `b`: it is better, or
/// as good and given earlier.
pub open spec fn precedes(scores: Seq<Score>, texts: Seq<Seq<char>>, a: int, b: int) -> bool {
    better(scores, texts, a, b) || (!better(scores, texts, b, a) && a < b)
}

/// `order` lists every position of the scored items once.
pub open spec fn is_permutation(order: Seq<usize>, n: int) -> bool {
    &&& order.len() == n
    &&& forall|i: int| 0 <= i < order.len() ==> (#[trigger] order[i]) < n
    &&& forall|i: int, j: int| 0 <= i < j < order.len() ==> order[i] != order[j]
    &&& forall|c: int| 0 <= c < n ==> has_position(order, c)
}

/// The position `c` is listed in `order`.
pub open spec fn has_position(order: Seq<usize>, c: int) -> bool {
    exists|p: int| 0 <= p < order.len() && #[trigger] order[p] == c
}

/// `order` is the ranking of the scored items: every position once, each
/// before all that it precedes.
pub open spec fn is_ranking(order: Seq<usize>, scores: Seq<Score>, texts: Seq<Seq<char>>) -> bool {
    &&& is_permutation(order, scores.len() as int)
    &&& forall|i: int, j: int|
        0 <= i < j < order.len() ==> precedes(
            scores,
            texts,
            #[trigger] order[i] as int,
            #[trigger] order[j] as int,
        )
}

/// `precedes` is a strict total order on positions.
pub proof fn lemma_precedes_order(scores: Seq<Score>, texts: Seq<Seq<char>>, a: int, b: int, c: int)
    ensures
        !precedes(scores, texts, a, a),
        a != b ==> (precedes(scores, texts, a, b) <==> !precedes(scores, texts, b, a)),
        precedes(scores, texts, a, b) && precedes(scores, texts, b, c) ==> precedes(
            scores,
            texts,
            a,
            c,
        ),
        better(scores, texts, a, b) && !better(scores, texts, c, b) ==> better(scores, texts, a, c),
{
    let ta = tie_text(texts, a);
    let tb = tie_text(texts, b);
    let tc = tie_text(texts, c);
    lemma_text_before_irreflexive(ta);
    lemma_text_before_total(ta, tb);
    lemma_text_before_total(tb, tc);
    lemma_text_before_total(ta, tc);
    if text_before(tc, tb) && text_before(tb, ta) {
        lemma_text_before_transitive(tc, tb, ta);
    }
    if text_before(tb, ta) && !text_before(tb, tc) && tb != tc {
        lemma_text_before_transitive(tc, tb, ta);
    }
}

/// Whether the item at `a` is better than the item at `b`.
fn is_better(scores: &Vec<Score>, texts: &Vec<Vec<char>>, a: usize, b: usize) -> (r: bool)
    requires
        a < scores.len(),
        b < scores.len(),
        texts.len() == scores.len() || texts.len() == 0,
    ensures
        r == better(scores@, text_views(texts@), a as int, b as int),
{
    if scores[a] != scores[b] {
        scores[a] > scores[b]
    } else if texts.len() == 0 {
        false
    } else {
        chars_before(&texts[b], &texts[a])
    }
}

/// The characters of each text of `v`.
pub open spec fn text_views(v: Seq<Vec<char>>) -> Seq<Seq<char>> {
    Seq::new(v.len(), |i: int| v[i]@)
}

/// The ranking of the items with the given scores and tie texts: the
/// positions of the items, best first. `texts` gives one tie text for
/// each score, or none at all.
pub fn ranking(scores: &Vec<Score>, texts: &Vec<Vec<char>>) -> (order: Vec<usize>)
    requires
        texts.len() == scores.len() || texts.len() == 0,
    ensures
        is_ranking(order@, scores@, text_views(texts@)),
{
    let n = scores.len();
    let ghost tx = text_views(texts@);
    let mut order: Vec<usize> = Vec::new();
    let mut i: usize = 0;
    while i < n
        invariant
            n == scores.len(),
            texts.len() == scores.len() || texts.len() == 0,
            tx == text_views(texts@),
            i <= n,
            is_permutation(order@, i as int),
            forall|a: int, b: int|
                0 <= a < b < order.len() ==> precedes(
                    scores@,
                    tx,
                    #[trigger] order@[a] as int,
                    #[trigger] order@[b] as int,
                ),
        decreases n - i,
    {
        let mut j: usize = 0;
        while j < order.len() && !is_better(scores, texts, i, order[j])
            invariant
                n == scores.len(),
                texts.len() == scores.len() || texts.len() == 0,
                tx == text_views(texts@),
                i < n,
                is_permutation(order@, i as int),
                j <= order.len(),
                forall|k: int| 0 <= k < j ==> !better(scores@, tx, i as int, #[trigger] order@[k] as int),
            decreases order.len() - j,
        {
            j += 1;
        }
        let ghost before = order@;
        order.insert(j, i);
        proof {
            assert forall|a: int, b: int| 0 <= a < b < order.len() implies precedes(
                scores@,
                tx,
                #[trigger] order@[a] as int,
                #[trigger] order@[b] as int,
            ) by {
                let x = order@[a] as int;
                let y = order@[b] as int;
                if a == j {
                    // the new item against one that it was found better than, or a later one
                    let first = before[j as int] as int;
                    assert(better(scores@, tx, i as int, first));
                    if b - 1 > j {
                        assert(precedes(scores@, tx, before[j as int] as int, before[b - 1] as int));
                        lemma_precedes_order(scores@, tx, i as int, first, y);
                        lemma_precedes_order(scores@, tx, first, y, i as int);
                        lemma_precedes_order(scores@, tx, y, i as int, first);
                    }
                } else if b == j {
                    assert(x == before[a] as int);
                    assert(!better(scores@, tx, i as int, x));
                    assert(x < i);
                } else {
                    let a0 = if a < j { a } else { a - 1 };
                    let b0 = if b < j { b } else { b - 1 };
                    assert(x == before[a0] as int);
                    assert(y == before[b0] as int);
                    assert(precedes(scores@, tx, before[a0] as int, before[b0] as int));
                }
            }
            assert forall|a: int, b: int| 0 <= a < b < order.len() implies order@[a] != order@[b] by {
                let a0 = if a < j { a } else { a - 1 };
                let b0 = if b < j { b } else { b - 1 };
                if a != j && b != j {
                    assert(order@[a] == before[a0]);
                    assert(order@[b] == before[b0]);
                } else if a == j {
                    assert(order@[b] == before[b0]);
                } else {
                    assert(order@[a] == before[a0]);
                }
            }
            assert forall|a: int| 0 <= a < order.len() implies (#[trigger] order@[a]) < i + 1 by {
                let a0 = if a < j { a } else { a - 1 };
                if a != j {
                    assert(order@[a] == before[a0]);
                }
            }
            assert forall|c: int| 0 <= c < i + 1 implies has_position(order@, c) by {
                if c == i {
                    assert(order@[j as int] == c);
                } else {
                    assert(has_position(before, c));
                    let p0 = choose|p: int| 0 <= p < before.len() && #[trigger] before[p] == c;
                    let p = if p0 < j { p0 } else { p0 + 1 };
                    assert(order@[p] == c);
                }
            }
        }
        i += 1;
    }
    order
}

} // verus!

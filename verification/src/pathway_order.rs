//! The order of pathways: by namespace first, then by the sequence of
//! segments, each segment by code point.

use vstd::prelude::*;

use crate::node::Namespace;
use crate::pathway::{Pathway, PathwayView};
use crate::ranking::{
    chars_before, lemma_text_before_irreflexive, lemma_text_before_total,
    lemma_text_before_transitive, text_before,
};
use crate::text::{chars_of, string_views};

verus! {

/// Strict lexicographic order of segment sequences.
pub open spec fn segments_before(a: Seq<Seq<char>>, b: Seq<Seq<char>>) -> bool
    decreases a.len(),
{
    if b.len() == 0 {
        false
    } else if a.len() == 0 {
        true
    } else if a[0] != b[0] {
        text_before(a[0], b[0])
    } else {
        segments_before(a.skip(1), b.skip(1))
    }
}

/// Strict order of pathways: a lower namespace first, and within a
/// namespace the lesser sequence of segments.
pub open spec fn pathway_before(a: PathwayView, b: PathwayView) -> bool {
    a.namespace.rank() < b.namespace.rank() || (a.namespace == b.namespace && segments_before(
        a.segments,
        b.segments,
    ))
}

/// Namespaces of equal rank are equal.
pub proof fn lemma_rank_injective(a: Namespace, b: Namespace)
    ensures
        a.rank() == b.rank() <==> a == b,
        0 <= a.rank() < 4,
{
}

/// No sequence of segments stands before itself.
pub proof fn lemma_segments_irreflexive(a: Seq<Seq<char>>)
    ensures
        !segments_before(a, a),
    decreases a.len(),
{
    if a.len() > 0 {
        lemma_segments_irreflexive(a.skip(1));
    }
}

/// Of two different sequences of segments exactly one stands before the
/// other.
pub proof fn lemma_segments_total(a: Seq<Seq<char>>, b: Seq<Seq<char>>)
    ensures
        a != b ==> (segments_before(a, b) || segments_before(b, a)),
        !(segments_before(a, b) && segments_before(b, a)),
    decreases a.len(),
{
    if a.len() > 0 && b.len() > 0 {
        if a[0] == b[0] {
            lemma_segments_total(a.skip(1), b.skip(1));
            if a.skip(1) == b.skip(1) {
                assert(a =~= seq![a[0]] + a.skip(1));
                assert(b =~= seq![b[0]] + b.skip(1));
            }
        } else {
            lemma_text_before_total(a[0], b[0]);
        }
    } else if a.len() == 0 && b.len() == 0 {
        assert(a =~= b);
    } else if a.len() == 0 {
        assert(segments_before(a, b));
    } else {
        assert(segments_before(b, a));
    }
}

/// The order of segment sequences is transitive.
pub proof fn lemma_segments_transitive(a: Seq<Seq<char>>, b: Seq<Seq<char>>, c: Seq<Seq<char>>)
    requires
        segments_before(a, b),
        segments_before(b, c),
    ensures
        segments_before(a, c),
    decreases a.len(),
{
    if a.len() > 0 && b.len() > 0 && c.len() > 0 {
        if a[0] == b[0] && b[0] == c[0] {
            lemma_segments_transitive(a.skip(1), b.skip(1), c.skip(1));
        } else if a[0] != b[0] && b[0] != c[0] {
            lemma_text_before_transitive(a[0], b[0], c[0]);
            lemma_text_before_irreflexive(a[0]);
        }
    }
}

/// The order of pathways is a strict total order: no pathway stands
/// before itself, of two different pathways exactly one stands before the
/// other, whatever their namespaces, and the order is transitive.
pub proof fn law_pathway_order(a: PathwayView, b: PathwayView, c: PathwayView)
    ensures
        !pathway_before(a, a),
        a != b ==> (pathway_before(a, b) || pathway_before(b, a)),
        !(pathway_before(a, b) && pathway_before(b, a)),
        pathway_before(a, b) && pathway_before(b, c) ==> pathway_before(a, c),
{
    lemma_rank_injective(a.namespace, b.namespace);
    lemma_rank_injective(b.namespace, c.namespace);
    lemma_rank_injective(a.namespace, c.namespace);
    lemma_segments_irreflexive(a.segments);
    lemma_segments_total(a.segments, b.segments);
    if pathway_before(a, b) && pathway_before(b, c) && a.namespace == b.namespace && b.namespace
        == c.namespace {
        lemma_segments_transitive(a.segments, b.segments, c.segments);
    }
}

impl Pathway {
    /// Whether this pathway stands before `other` in the order of
    /// pathways.
    pub fn precedes(&self, other: &Pathway) -> (r: bool)
        ensures
            r == pathway_before(self@, other@),
    {
        let mine = self.namespace().index();
        let theirs = other.namespace().index();
        if mine != theirs {
            return mine < theirs;
        }
        let a = self.segments();
        let b = other.segments();
        let ghost x = self@.segments;
        let ghost y = other@.segments;
        let mut i: usize = 0;
        assert(x.skip(0) == x && y.skip(0) == y);
        proof {
            lemma_rank_injective(self@.namespace, other@.namespace);
        }
        while i < a.len() && i < b.len()
            invariant
                i <= a.len(),
                i <= b.len(),
                x == string_views(a@),
                y == string_views(b@),
                x == self@.segments,
                y == other@.segments,
                self@.namespace == other@.namespace,
                segments_before(x, y) == segments_before(x.skip(i as int), y.skip(i as int)),
            decreases a.len() - i,
        {
            let ghost rx = x.skip(i as int);
            let ghost ry = y.skip(i as int);
            assert(rx[0] == a@[i as int]@ && ry[0] == b@[i as int]@);
            if a[i] != b[i] {
                let left = chars_of(a[i].as_str());
                let right = chars_of(b[i].as_str());
                return chars_before(&left, &right);
            }
            assert(rx.skip(1) == x.skip(i + 1));
            assert(ry.skip(1) == y.skip(i + 1));
            i += 1;
        }
        i < b.len()
    }
}

} // verus!

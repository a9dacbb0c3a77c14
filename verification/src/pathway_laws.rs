//! What holds of pathways and of their written form.

use vstd::prelude::*;

use crate::node::{lemma_namespace_text, plain_char, Namespace};
use crate::pathway::{
    first_invalid, invalid_segment, join_segments, lemma_tokens_relative, lemma_tokens_shape,
    parse_text, protocol, slash_free, strip_prefix, tokens, PathwayView,
};
use crate::text::{
    is_white_space, lemma_back_white_bounds, lemma_skip_white_bounds, lemma_trim_fixed,
    lemma_trim_range, trim, trim_end, trim_start,
};

verus! {

/// Every pathway is a prefix of itself.
pub proof fn law_prefix_reflexive(p: PathwayView)
    ensures
        p.is_prefix_of(p),
{
    assert(p.segments.subrange(0, p.segments.len() as int) == p.segments);
}

/// A parent is a prefix of its child, differs from it, and the child is
/// no prefix of the parent.
pub proof fn law_parent_prefix(child: PathwayView)
    requires
        child.parent() is Some,
    ensures
        child.parent()->Some_0.is_prefix_of(child),
        !child.is_prefix_of(child.parent()->Some_0),
        child.parent()->Some_0 != child,
{
    let parent = child.parent()->Some_0;
    assert(child.segments.subrange(0, parent.segments.len() as int) == parent.segments);
}

/// Joining a segment and going up again gives the pathway back.
pub proof fn law_join_parent(p: PathwayView, segment: Seq<char>)
    ensures
        p.join(segment).parent() == Some(p),
        p.is_prefix_of(p.join(segment)),
{
    let child = p.join(segment);
    assert(child.segments.drop_last() == p.segments);
    assert(child.segments.subrange(0, p.segments.len() as int) == p.segments);
}

/// Where `first_invalid` stops, and what it has passed.
pub proof fn lemma_first_invalid(segs: Seq<Seq<char>>, from: int)
    requires
        0 <= from <= segs.len(),
    ensures
        from <= first_invalid(segs, from) <= segs.len(),
        first_invalid(segs, from) < segs.len() ==> invalid_segment(
            segs[first_invalid(segs, from)],
        ),
        forall|k: int| from <= k < first_invalid(segs, from) ==> !invalid_segment(#[trigger] segs[k]),
    decreases segs.len() - from,
{
    if from < segs.len() && !invalid_segment(segs[from]) {
        lemma_first_invalid(segs, from + 1);
    }
}

/// The written form of the segments ends as the last segment ends.
pub proof fn lemma_join_last(segs: Seq<Seq<char>>)
    requires
        segs.len() > 0,
        segs.last().len() > 0,
    ensures
        join_segments(segs).len() > 0,
        join_segments(segs).last() == segs.last().last(),
{
}

/// Reading the canonical form of a canonical pathway gives it back.
pub proof fn law_parse_canonical(p: PathwayView)
    requires
        p.canonical(),
    ensures
        parse_text(p.text()) == Ok::<PathwayView, Seq<char>>(p),
{
    let name = p.namespace.text();
    let written = p.text();
    lemma_namespace_text(p.namespace);
    assert(plain_char(name[0]));
    assert(plain_char(name.last()));
    assert(written[0] == 'a');
    if p.segments.len() > 0 {
        assert(!invalid_segment(p.segments.last()));
        lemma_join_last(p.segments);
        assert(written.last() == p.segments.last().last());
    } else {
        assert(join_segments(p.segments) == Seq::<char>::empty());
        assert(written == protocol() + name);
        assert(written.last() == name.last());
    }
    lemma_trim_fixed(written);
    assert(written.subrange(0, 6) == protocol());
    let body = strip_prefix(written);
    assert(body == p.relative_text());
    assert(slash_free(name)) by {
        assert forall|i: int| 0 <= i < name.len() implies #[trigger] name[i] != '/' by {
            assert(plain_char(name[i]));
        }
    }
    assert forall|i: int| 0 <= i < p.segments.len() implies (#[trigger] p.segments[i]).len() > 0
        && slash_free(p.segments[i]) by {
        assert(!invalid_segment(p.segments[i]));
        assert(!p.segments[i].contains('/'));
    }
    lemma_tokens_relative(name, p.segments);
    let parts = tokens(body);
    assert(parts[0] == name);
    assert(parts.skip(1) == p.segments);
    lemma_first_invalid(p.segments, 0);
}

/// What parsing accepts is well formed, and none of its segments holds a
/// slash.
pub proof fn law_parse_well_formed(s: Seq<char>)
    requires
        parse_text(s) is Ok,
    ensures
        parse_text(s)->Ok_0.well_formed(),
        forall|i: int|
            0 <= i < parse_text(s)->Ok_0.segments.len() ==> slash_free(
                #[trigger] parse_text(s)->Ok_0.segments[i],
            ),
{
    let body = strip_prefix(trim(s));
    let parts = tokens(body);
    let segments = parts.skip(1);
    lemma_tokens_shape(body);
    lemma_first_invalid(segments, 0);
    assert forall|i: int| 0 <= i < segments.len() implies slash_free(#[trigger] segments[i]) by {
        assert(segments[i] == parts[i + 1]);
    }
}

/// Round trip: writing a parsed pathway and reading it again gives the
/// same pathway, provided its last segment does not end in white space.
pub proof fn law_round_trip(s: Seq<char>)
    requires
        parse_text(s) is Ok,
        parse_text(s)->Ok_0.segments.len() > 0 ==> !is_white_space(
            parse_text(s)->Ok_0.segments.last().last(),
        ),
    ensures
        parse_text(parse_text(s)->Ok_0.text()) == parse_text(s),
{
    let p = parse_text(s)->Ok_0;
    law_parse_well_formed(s);
    assert forall|i: int| 0 <= i < p.segments.len() implies !(#[trigger] p.segments[i]).contains(
        '/',
    ) by {
        assert(slash_free(p.segments[i]));
    }
    law_parse_canonical(p);
}

/// A character that is not white space survives trimming.
pub proof fn lemma_trim_keeps(s: Seq<char>, i: int)
    requires
        0 <= i < s.len(),
        !is_white_space(s[i]),
    ensures
        trim_start(s) <= i < trim_end(s),
        trim(s)[i - trim_start(s)] == s[i],
{
    lemma_skip_white_bounds(s, 0);
    lemma_back_white_bounds(s, s.len() as int);
    lemma_trim_range(s);
}

/// Every character that is no slash stands in one of the tokens.
pub proof fn lemma_tokens_cover(s: Seq<char>, j: int)
    requires
        0 <= j < s.len(),
        s[j] != '/',
    ensures
        exists|m: int| 0 <= m < tokens(s).len() && (#[trigger] tokens(s)[m]).contains(s[j]),
    decreases s.len(),
{
    lemma_tokens_shape(s);
    if j == s.len() - 1 {
        let m = tokens(s).len() - 1;
        let last = tokens(s)[m];
        assert(last[last.len() - 1] == s[j]);
        assert(tokens(s)[m].contains(s[j]));
    } else {
        let head = s.drop_last();
        lemma_tokens_cover(head, j);
        lemma_tokens_shape(head);
        let m = choose|m: int| 0 <= m < tokens(head).len() && (#[trigger] tokens(head)[m]).contains(
            head[j],
        );
        let tok = tokens(head)[m];
        let k = choose|k: int| 0 <= k < tok.len() && tok[k] == head[j];
        if s.last() == '/' {
            assert(tokens(s)[m].contains(s[j]));
        } else if s.len() > 1 && s[s.len() - 2] != '/' {
            if m == tokens(head).len() - 1 {
                assert(tokens(s)[m] == tok.push(s.last()));
                assert(tokens(s)[m][k] == s[j]);
                assert(tokens(s)[m].contains(s[j]));
            } else {
                assert(tokens(s)[m] == tok);
                assert(tokens(s)[m].contains(s[j]));
            }
        } else {
            assert(tokens(s)[m] == tok);
            assert(tokens(s)[m].contains(s[j]));
        }
    }
}

/// Parsing rejects the empty text.
pub proof fn law_rejects_empty()
    ensures
        parse_text(Seq::empty()) is Err,
{
    let s = Seq::<char>::empty();
    lemma_trim_range(s);
    assert(trim(s).len() == 0);
}

/// Parsing rejects the protocol prefix with nothing behind it.
pub proof fn law_rejects_protocol_only()
    ensures
        parse_text(protocol()) is Err,
{
    let s = protocol();
    lemma_trim_fixed(s);
    assert(s.subrange(0, 6) == s);
    assert(strip_prefix(s).len() == 0);
}

/// Parsing rejects a text whose first piece names no namespace.
pub proof fn law_rejects_unknown_namespace(s: Seq<char>)
    requires
        tokens(strip_prefix(trim(s))).len() > 0,
        Namespace::from_text(tokens(strip_prefix(trim(s)))[0]) is None,
    ensures
        parse_text(s) is Err,
{
}

/// Parsing rejects every text that holds the null character.
pub proof fn law_rejects_nul(s: Seq<char>)
    requires
        s.contains('\0'),
    ensures
        parse_text(s) is Err,
{
    let i = choose|i: int| 0 <= i < s.len() && s[i] == '\0';
    lemma_trim_keeps(s, i);
    lemma_trim_range(s);
    let t = trim(s);
    let ti = i - trim_start(s);
    assert(t[ti] == '\0');
    let body = strip_prefix(t);
    let cut = t.len() - body.len();
    if protocol().is_prefix_of(t) {
        assert(t.subrange(0, 6) == protocol());
        if ti < 6 {
            assert(t.subrange(0, 6)[ti] == t[ti]);
        }
    }
    let j = ti - cut;
    assert(0 <= j < body.len());
    assert(body[j] == '\0');
    lemma_tokens_cover(body, j);
    let parts = tokens(body);
    let m = choose|m: int| 0 <= m < parts.len() && (#[trigger] parts[m]).contains(body[j]);
    if parse_text(s) is Ok {
        let namespace = Namespace::from_text(parts[0])->Some_0;
        let segments = parts.skip(1);
        lemma_first_invalid(segments, 0);
        if m == 0 {
            lemma_namespace_text(namespace);
            lemma_names(parts[0]);
            let k = choose|k: int| 0 <= k < parts[0].len() && parts[0][k] == '\0';
            assert(plain_char(namespace.text()[k]));
        } else {
            assert(segments[m - 1] == parts[m]);
            assert(invalid_segment(segments[m - 1]));
        }
    }
}

/// A text that names a namespace is the name of that namespace.
pub proof fn lemma_names(s: Seq<char>)
    requires
        Namespace::from_text(s) is Some,
    ensures
        s == Namespace::from_text(s)->Some_0.text(),
{
}

} // verus!

//! Pathways: the hierarchical addresses of nodes.
//!
//! A pathway is written `a3s://namespace/segment/segment`; the protocol
//! prefix may be left out, or shortened to a single leading slash.

use vstd::prelude::*;
use vstd::string::*;

use crate::error::{A3SError, Result};
use crate::node::Namespace;
use crate::text::{chars_of, is_white_space, string_views, trim, trim_bounds};

verus! {

/// A unique address of a node: a namespace and the segments below it.
#[derive(Debug, Hash, PartialOrd, Ord)]
pub struct Pathway {
    namespace: Namespace,
    segments: Vec<String>,
}

/// What a pathway is: its namespace and the text of each segment.
pub struct PathwayView {
    pub namespace: Namespace,
    pub segments: Seq<Seq<char>>,
}

impl View for Pathway {
    type V = PathwayView;

    closed spec fn view(&self) -> PathwayView {
        PathwayView { namespace: self.namespace, segments: string_views(self.segments@) }
    }
}

/// The protocol prefix of the canonical form.
pub open spec fn protocol() -> Seq<char> {
    seq!['a', '3', 's', ':', '/', '/']
}

/// A segment that may not stand in a pathway: it is empty or holds the
/// null character.
pub open spec fn invalid_segment(seg: Seq<char>) -> bool {
    seg.len() == 0 || seg.contains('\0')
}

/// The segments, each behind a slash: `/seg1/seg2`.
pub open spec fn join_segments(segs: Seq<Seq<char>>) -> Seq<char>
    decreases segs.len(),
{
    if segs.len() == 0 {
        Seq::empty()
    } else {
        join_segments(segs.drop_last()) + seq!['/'] + segs.last()
    }
}

/// The maximal runs of `s` that hold no slash, in order.
pub open spec fn tokens(s: Seq<char>) -> Seq<Seq<char>>
    decreases s.len(),
{
    if s.len() == 0 {
        Seq::empty()
    } else if s.last() == '/' {
        tokens(s.drop_last())
    } else if s.len() > 1 && s[s.len() - 2] != '/' {
        let before = tokens(s.drop_last());
        before.drop_last().push(before.last().push(s.last()))
    } else {
        tokens(s.drop_last()).push(seq![s.last()])
    }
}

/// Index of the first invalid segment at or after `from`, or the number
/// of segments when all of them are valid.
pub open spec fn first_invalid(segs: Seq<Seq<char>>, from: int) -> int
    decreases segs.len() - from,
{
    if from < 0 || from >= segs.len() {
        segs.len() as int
    } else if invalid_segment(segs[from]) {
        from
    } else {
        first_invalid(segs, from + 1)
    }
}

/// What is left of a trimmed address once the protocol prefix, or else a
/// single leading slash, is taken off.
pub open spec fn strip_prefix(t: Seq<char>) -> Seq<char> {
    if protocol().is_prefix_of(t) {
        t.skip(6)
    } else if t.len() > 0 && t[0] == '/' {
        t.skip(1)
    } else {
        t
    }
}

impl PathwayView {
    /// Every segment is non-empty and free of the null character.
    pub open spec fn well_formed(self) -> bool {
        forall|i: int| 0 <= i < self.segments.len() ==> !invalid_segment(#[trigger] self.segments[i])
    }

    /// The pathway is written as it is read: it is well formed, no segment
    /// holds a slash, and the last one does not end in white space.
    pub open spec fn canonical(self) -> bool {
        &&& self.well_formed()
        &&& forall|i: int|
            0 <= i < self.segments.len() ==> !(#[trigger] self.segments[i]).contains('/')
        &&& self.segments.len() > 0 ==> !is_white_space(self.segments.last().last())
    }

    /// The form without the protocol prefix: `namespace/seg1/seg2`.
    pub open spec fn relative_text(self) -> Seq<char> {
        self.namespace.text() + join_segments(self.segments)
    }

    /// The canonical form: `a3s://namespace/seg1/seg2`.
    pub open spec fn text(self) -> Seq<char> {
        protocol() + self.relative_text()
    }

    /// The pathway one level up; `None` for a root.
    pub open spec fn parent(self) -> Option<PathwayView> {
        if self.segments.len() == 0 {
            None
        } else {
            Some(PathwayView { namespace: self.namespace, segments: self.segments.drop_last() })
        }
    }

    /// The pathway one level down, under `segment`.
    pub open spec fn join(self, segment: Seq<char>) -> PathwayView {
        PathwayView { namespace: self.namespace, segments: self.segments.push(segment) }
    }

    /// Same namespace, and the segments of `self` start those of `other`.
    pub open spec fn is_prefix_of(self, other: PathwayView) -> bool {
        self.namespace == other.namespace && self.segments.is_prefix_of(other.segments)
    }

    /// Number of levels by which `other` lies below `self`; meaningful when
    /// `self.is_prefix_of(other)`.
    pub open spec fn levels_to(self, other: PathwayView) -> int {
        other.segments.len() - self.segments.len()
    }
}

/// The name that stands for what `{:?}` prints of a text: the text in
/// double quotes, with its special characters escaped.
pub uninterp spec fn debug_text(s: Seq<char>) -> Seq<char>;

/// What parsing makes of an address: the pathway, or the reason why the
/// text is no address.
pub open spec fn parse_text(s: Seq<char>) -> std::result::Result<PathwayView, Seq<char>> {
    let body = strip_prefix(trim(s));
    let parts = tokens(body);
    if body.len() == 0 {
        Err("Empty pathway"@)
    } else if parts.len() == 0 {
        Err("No namespace specified"@)
    } else {
        match Namespace::from_text(parts[0]) {
            None => Err("Invalid namespace: "@ + parts[0]),
            Some(namespace) => {
                let segments = parts.skip(1);
                let bad = first_invalid(segments, 0);
                if bad < segments.len() {
                    Err("Invalid segment: "@ + debug_text(segments[bad]))
                } else {
                    Ok(PathwayView { namespace, segments })
                }
            },
        }
    }
}

/// The outcome `r` is what parsing makes of the text `s`: the pathway
/// that it denotes, or `InvalidPathway` with the reason.
pub open spec fn parsed_as(r: Result<Pathway>, s: Seq<char>) -> bool {
    match r {
        Ok(p) => parse_text(s) is Ok && p@ == parse_text(s)->Ok_0,
        Err(e) => parse_text(s) is Err && e is InvalidPathway && e.detail() == parse_text(
            s,
        )->Err_0,
    }
}

// ---------------------------------------------------------------------
// Tokens
// ---------------------------------------------------------------------

/// A text without slashes.
pub open spec fn slash_free(w: Seq<char>) -> bool {
    forall|i: int| 0 <= i < w.len() ==> #[trigger] w[i] != '/'
}

/// Every token is non-empty and slash-free; the last token ends where the
/// text ends, when the text does not end in a slash.
pub proof fn lemma_tokens_shape(s: Seq<char>)
    ensures
        forall|i: int|
            0 <= i < tokens(s).len() ==> (#[trigger] tokens(s)[i]).len() > 0 && slash_free(
                tokens(s)[i],
            ),
        s.len() > 0 && s.last() != '/' ==> tokens(s).len() > 0 && tokens(s).last().last()
            == s.last(),
    decreases s.len(),
{
    if s.len() > 0 {
        lemma_tokens_shape(s.drop_last());
        if s.last() != '/' && s.len() > 1 && s[s.len() - 2] != '/' {
            assert(s.drop_last().last() == s[s.len() - 2]);
        }
    }
}

/// A slash at the end adds no token.
pub proof fn lemma_tokens_slash(x: Seq<char>)
    ensures
        tokens(x + seq!['/']) == tokens(x),
{
    let s = x + seq!['/'];
    assert(s.drop_last() == x);
}

/// A non-empty slash-free word, put behind a text that is empty or ends
/// in a slash, is one more token.
pub proof fn lemma_tokens_word(x: Seq<char>, w: Seq<char>)
    requires
        x.len() == 0 || x.last() == '/',
        w.len() > 0,
        slash_free(w),
    ensures
        tokens(x + w) == tokens(x).push(w),
    decreases w.len(),
{
    let s = x + w;
    assert(s.last() == w.last());
    assert(s.drop_last() == x + w.drop_last());
    if w.len() == 1 {
        assert(w.drop_last() == Seq::<char>::empty());
        assert(x + w.drop_last() == x);
        assert(w == seq![w.last()]);
        if s.len() > 1 {
            assert(s[s.len() - 2] == x.last());
        }
    } else {
        let v = w.drop_last();
        assert(slash_free(v)) by {
            assert forall|i: int| 0 <= i < v.len() implies #[trigger] v[i] != '/' by {
                assert(v[i] == w[i]);
            }
        }
        lemma_tokens_word(x, v);
        assert(s[s.len() - 2] == w[w.len() - 2]);
        assert(tokens(x).push(v).drop_last() == tokens(x));
        assert(v.push(w.last()) == w);
    }
}

/// The tokens of `namespace/seg1/seg2` are the name and the segments,
/// when no segment is empty or holds a slash.
pub proof fn lemma_tokens_relative(ns: Seq<char>, segs: Seq<Seq<char>>)
    requires
        ns.len() > 0,
        slash_free(ns),
        forall|i: int| 0 <= i < segs.len() ==> (#[trigger] segs[i]).len() > 0 && slash_free(segs[i]),
    ensures
        tokens(ns + join_segments(segs)) == seq![ns] + segs,
    decreases segs.len(),
{
    if segs.len() == 0 {
        assert(ns + join_segments(segs) == ns);
        lemma_tokens_word(Seq::empty(), ns);
        assert(Seq::<char>::empty() + ns == ns);
        assert(tokens(Seq::<char>::empty()).push(ns) == seq![ns] + segs);
    } else {
        let head = segs.drop_last();
        let x = ns + join_segments(head);
        lemma_tokens_relative(ns, head);
        lemma_tokens_slash(x);
        lemma_tokens_word(x + seq!['/'], segs.last());
        assert(ns + join_segments(segs) == (x + seq!['/']) + segs.last());
        assert((seq![ns] + head).push(segs.last()) == seq![ns] + segs);
    }
}

// ---------------------------------------------------------------------
// Scanning
// ---------------------------------------------------------------------

/// The texts that a list of ranges cuts out of `chars`.
pub open spec fn ranges_text(chars: Seq<char>, ranges: Seq<(usize, usize)>) -> Seq<Seq<char>> {
    Seq::new(ranges.len(), |i: int| chars.subrange(ranges[i].0 as int, ranges[i].1 as int))
}

/// Every range lies inside a text of length `len`.
pub open spec fn ranges_within(ranges: Seq<(usize, usize)>, len: int) -> bool {
    forall|i: int| 0 <= i < ranges.len() ==> (#[trigger] ranges[i]).0 <= ranges[i].1 <= len
}

/// `format!("{:?}", s)` from std: the `Debug` form of a text. The contract
/// gives that form the name `debug_text` and claims nothing else of it.
#[verifier::external_body]
fn debug_quote(s: &str) -> (r: String)
    ensures
        r@ == debug_text(s@),
{
    format!("{:?}", s)
}

/// Whether the protocol prefix stands at `a` in `chars[a..b]`.
fn has_protocol(chars: &Vec<char>, a: usize, b: usize) -> (r: bool)
    requires
        a <= b <= chars.len(),
    ensures
        r == protocol().is_prefix_of(chars@.subrange(a as int, b as int)),
{
    if b - a < 6 {
        return false;
    }
    let r = chars[a] == 'a' && chars[a + 1] == '3' && chars[a + 2] == 's' && chars[a + 3] == ':'
        && chars[a + 4] == '/' && chars[a + 5] == '/';
    proof {
        let t = chars@.subrange(a as int, b as int);
        if r {
            assert(t.subrange(0, 6) =~= protocol());
        } else if protocol().is_prefix_of(t) {
            let head = t.subrange(0, 6);
            assert(head == protocol());
            assert(head[0] == 'a' && head[1] == '3' && head[2] == 's');
            assert(head[3] == ':' && head[4] == '/' && head[5] == '/');
        }
    }
    r
}

/// The ranges of the tokens of `chars[start..end]`.
fn token_ranges(chars: &Vec<char>, start: usize, end: usize) -> (out: Vec<(usize, usize)>)
    requires
        start <= end <= chars.len(),
    ensures
        ranges_within(out@, chars.len() as int),
        ranges_text(chars@, out@) == tokens(chars@.subrange(start as int, end as int)),
{
    let mut out: Vec<(usize, usize)> = Vec::new();
    let mut open = false;
    let mut o: usize = start;
    let mut i: usize = start;
    assert(ranges_text(chars@, out@) =~= tokens(chars@.subrange(start as int, start as int)));
    while i < end
        invariant
            start <= i <= end <= chars.len(),
            ranges_within(out@, chars.len() as int),
            !open ==> (i == start || chars@[i - 1] == '/') && ranges_text(chars@, out@) == tokens(
                chars@.subrange(start as int, i as int),
            ),
            open ==> start <= o < i && chars@[i - 1] != '/' && tokens(
                chars@.subrange(start as int, i as int),
            ) == ranges_text(chars@, out@).push(chars@.subrange(o as int, i as int)),
        decreases end - i,
    {
        let c = chars[i];
        let ghost before = chars@.subrange(start as int, i as int);
        let ghost after = chars@.subrange(start as int, i + 1);
        let ghost done = ranges_text(chars@, out@);
        proof {
            assert(after.drop_last() == before);
            assert(after.last() == c);
            if i > start {
                assert(after[after.len() - 2] == chars@[i - 1]);
            }
        }
        if c == '/' {
            if open {
                out.push((o, i));
                open = false;
                assert(ranges_text(chars@, out@) == done.push(chars@.subrange(o as int, i as int)));
            }
        } else {
            if open {
                proof {
                    let t = done.push(chars@.subrange(o as int, i as int));
                    assert(t.drop_last() == done);
                    assert(chars@.subrange(o as int, i as int).push(c) == chars@.subrange(
                        o as int,
                        i + 1,
                    ));
                }
            } else {
                open = true;
                o = i;
                assert(chars@.subrange(i as int, i + 1) == seq![c]);
            }
        }
        i += 1;
    }
    if open {
        let ghost done = ranges_text(chars@, out@);
        out.push((o, end));
        assert(ranges_text(chars@, out@) == done.push(chars@.subrange(o as int, end as int)));
    }
    out
}

/// Whether `chars[lo..hi]` holds the null character.
fn holds_nul(chars: &Vec<char>, lo: usize, hi: usize) -> (r: bool)
    requires
        lo <= hi <= chars.len(),
    ensures
        r == chars@.subrange(lo as int, hi as int).contains('\0'),
{
    let ghost part = chars@.subrange(lo as int, hi as int);
    let mut i: usize = lo;
    while i < hi
        invariant
            lo <= i <= hi <= chars.len(),
            part == chars@.subrange(lo as int, hi as int),
            forall|k: int| 0 <= k < i - lo ==> #[trigger] part[k] != '\0',
        decreases hi - i,
    {
        if chars[i] == '\0' {
            assert(part[i - lo] == '\0');
            return true;
        }
        i += 1;
    }
    false
}

/// A copy of the first `upto` strings of `v`.
fn copy_strings(v: &Vec<String>, upto: usize) -> (out: Vec<String>)
    requires
        upto <= v.len(),
    ensures
        string_views(out@) == string_views(v@).take(upto as int),
{
    let mut out: Vec<String> = Vec::new();
    let mut i: usize = 0;
    while i < upto
        invariant
            i <= upto <= v.len(),
            out.len() == i,
            forall|k: int| 0 <= k < i ==> (#[trigger] out@[k])@ == v@[k]@,
        decreases upto - i,
    {
        out.push(v[i].clone());
        i += 1;
    }
    assert(string_views(out@) =~= string_views(v@).take(upto as int));
    out
}

/// The protocol prefix as a literal.
proof fn lemma_protocol_literal()
    ensures
        "a3s://"@ == protocol(),
{
    reveal_strlit("a3s://");
    assert("a3s://"@ =~= protocol());
}

impl Pathway {
    /// Protocol prefix of the canonical form.
    pub const PROTOCOL: &'static str = "a3s://";

    /// A pathway from its parts.
    pub fn new(namespace: Namespace, segments: Vec<String>) -> (p: Pathway)
        ensures
            p@.namespace == namespace,
            p@.segments == string_views(segments@),
    {
        Pathway { namespace, segments }
    }

    /// The pathway that `s` denotes.
    ///
    /// The text is trimmed; the protocol prefix, or else one leading slash,
    /// is taken off; what is left is cut at slashes, empty pieces dropped.
    /// The first piece names the namespace, the others are the segments.
    pub fn parse(s: &str) -> (r: Result<Pathway>)
        ensures
            parsed_as(r, s@),
    {
        let chars = chars_of(s);
        let (a, b) = trim_bounds(&chars);
        let ghost t = trim(s@);
        let start = if has_protocol(&chars, a, b) {
            a + 6
        } else if a < b && chars[a] == '/' {
            a + 1
        } else {
            a
        };
        let ghost body = strip_prefix(t);
        assert(body == chars@.subrange(start as int, b as int));
        if start >= b {
            return Err(A3SError::InvalidPathway(String::from_str("Empty pathway")));
        }
        let ranges = token_ranges(&chars, start, b);
        let ghost parts = tokens(body);
        if ranges.len() == 0 {
            return Err(A3SError::InvalidPathway(String::from_str("No namespace specified")));
        }
        let name = s.substring_char(ranges[0].0, ranges[0].1);
        assert(name@ == parts[0]) by {
            assert(ranges_text(chars@, ranges@)[0] == parts[0]);
        }
        let namespace = match Namespace::parse(name) {
            Some(namespace) => namespace,
            None => {
                let message = String::from_str("Invalid namespace: ").concat(name);
                return Err(A3SError::InvalidPathway(message));
            },
        };
        let ghost wanted = parts.skip(1);
        let mut segments: Vec<String> = Vec::new();
        let mut i: usize = 1;
        while i < ranges.len()
            invariant
                1 <= i <= ranges.len(),
                chars@ == s@,
                ranges_within(ranges@, chars.len() as int),
                ranges_text(chars@, ranges@) == parts,
                wanted == parts.skip(1),
                parts == tokens(strip_prefix(trim(s@))),
                strip_prefix(trim(s@)).len() > 0,
                parts.len() == ranges.len(),
                Namespace::from_text(parts[0]) == Some(namespace),
                segments.len() == i - 1,
                string_views(segments@) == wanted.take(i - 1),
                first_invalid(wanted, 0) == first_invalid(wanted, i - 1),
            decreases ranges.len() - i,
        {
            let (lo, hi) = ranges[i];
            let segment = s.substring_char(lo, hi);
            assert(segment@ == wanted[i - 1]) by {
                assert(ranges_text(chars@, ranges@)[i as int] == parts[i as int]);
            }
            if segment.is_empty() || holds_nul(&chars, lo, hi) {
                assert(ranges_text(chars@, ranges@).len() == ranges.len());
                assert(invalid_segment(wanted[i - 1]));
                assert(first_invalid(wanted, i - 1) == i - 1);
                let message = String::from_str("Invalid segment: ").concat(
                    debug_quote(segment).as_str(),
                );
                return Err(A3SError::InvalidPathway(message));
            }
            let ghost old_texts = string_views(segments@);
            segments.push(String::from_str(segment));
            assert(string_views(segments@) == old_texts.push(segment@));
            assert(wanted.take(i as int) == wanted.take(i - 1).push(wanted[i - 1]));
            i += 1;
        }
        assert(wanted.take(i - 1) == wanted);
        Ok(Pathway { namespace, segments })
    }

    /// The namespace.
    pub fn namespace(&self) -> (r: Namespace)
        ensures
            r == self@.namespace,
    {
        self.namespace
    }

    /// The segments below the namespace, outermost first.
    pub fn segments(&self) -> (r: &[String])
        ensures
            string_views(r@) == self@.segments,
    {
        self.segments.as_slice()
    }

    /// The last segment; `None` for a root.
    pub fn name(&self) -> (r: Option<&str>)
        ensures
            match r {
                Some(s) => self@.segments.len() > 0 && s@ == self@.segments.last(),
                None => self@.segments.len() == 0,
            },
    {
        let n = self.segments.len();
        if n == 0 {
            None
        } else {
            Some(self.segments[n - 1].as_str())
        }
    }

    /// The pathway one level up; `None` for a root.
    pub fn parent(&self) -> (r: Option<Pathway>)
        ensures
            match r {
                Some(p) => self@.parent() == Some(p@),
                None => self@.parent().is_none(),
            },
    {
        let n = self.segments.len();
        if n == 0 {
            None
        } else {
            let segments = copy_strings(&self.segments, n - 1);
            assert(string_views(self.segments@).take(n - 1) == string_views(self.segments@).drop_last());
            Some(Pathway { namespace: self.namespace, segments })
        }
    }

    /// The pathway one level down, under `segment`.
    pub fn join(&self, segment: &str) -> (r: Pathway)
        ensures
            r@ == self@.join(segment@),
    {
        let mut segments = copy_strings(&self.segments, self.segments.len());
        let ghost before = string_views(segments@);
        segments.push(String::from_str(segment));
        assert(string_views(segments@) == before.push(segment@));
        assert(string_views(self.segments@).take(self.segments.len() as int) == string_views(self.segments@));
        Pathway { namespace: self.namespace, segments }
    }

    /// Whether `other` is this pathway or lies below it.
    pub fn is_prefix_of(&self, other: &Pathway) -> (r: bool)
        ensures
            r == self@.is_prefix_of(other@),
    {
        if self.namespace != other.namespace {
            return false;
        }
        let n = self.segments.len();
        if n > other.segments.len() {
            return false;
        }
        let ghost mine = string_views(self.segments@);
        let ghost theirs = string_views(other.segments@);
        let mut i: usize = 0;
        while i < n
            invariant
                i <= n,
                n == self.segments.len(),
                n <= other.segments.len(),
                mine == string_views(self.segments@),
                theirs == string_views(other.segments@),
                forall|k: int| 0 <= k < i ==> #[trigger] mine[k] == theirs[k],
            decreases n - i,
        {
            if self.segments[i] != other.segments[i] {
                assert(mine[i as int] != theirs.subrange(0, mine.len() as int)[i as int]);
                return false;
            }
            i += 1;
        }
        assert(mine =~= theirs.subrange(0, mine.len() as int));
        true
    }

    /// Whether this pathway has no segments.
    pub fn is_root(&self) -> (r: bool)
        ensures
            r == (self@.segments.len() == 0),
    {
        self.segments.len() == 0
    }

    /// Number of segments.
    pub fn depth(&self) -> (r: usize)
        ensures
            r == self@.segments.len(),
    {
        self.segments.len()
    }

    /// The form without the protocol prefix: `namespace/seg1/seg2`.
    pub fn to_relative(&self) -> (r: String)
        ensures
            r@ == self@.relative_text(),
    {
        let mut out = String::from_str(self.namespace.as_str());
        let ghost segs = string_views(self.segments@);
        let mut i: usize = 0;
        assert(segs.take(0) == Seq::<Seq<char>>::empty());
        assert(out@ + join_segments(segs.take(0)) == out@);
        while i < self.segments.len()
            invariant
                i <= self.segments.len(),
                segs == string_views(self.segments@),
                out@ == self.namespace.text() + join_segments(segs.take(i as int)),
            decreases self.segments.len() - i,
        {
            proof {
                reveal_strlit("/");
                assert("/"@ == seq!['/']);
                assert(segs.take(i + 1).drop_last() == segs.take(i as int));
                assert(segs.take(i + 1).last() == self.segments@[i as int]@);
            }
            out.append("/");
            out.append(self.segments[i].as_str());
            assert(out@ == self.namespace.text() + join_segments(segs.take(i + 1)));
            i += 1;
        }
        assert(segs.take(i as int) == segs);
        out
    }

    /// The canonical form: `a3s://namespace/seg1/seg2`.
    pub fn to_string(&self) -> (r: String)
        ensures
            r@ == self@.text(),
    {
        proof {
            lemma_protocol_literal();
        }
        String::from_str(Self::PROTOCOL).concat(self.to_relative().as_str())
    }

    /// The root of a namespace.
    pub fn root(namespace: Namespace) -> (p: Pathway)
        ensures
            p@.namespace == namespace,
            p@.segments.len() == 0,
    {
        Pathway { namespace, segments: Vec::new() }
    }

    /// The pathway `a3s://knowledge/` followed by `path`.
    pub fn knowledge(path: &str) -> (r: Result<Pathway>)
        ensures
            parsed_as(r, "a3s://knowledge/"@ + path@),
    {
        let text = String::from_str("a3s://knowledge/").concat(path);
        Pathway::parse(text.as_str())
    }

    /// The pathway `a3s://memory/` followed by `path`.
    pub fn memory(path: &str) -> (r: Result<Pathway>)
        ensures
            parsed_as(r, "a3s://memory/"@ + path@),
    {
        let text = String::from_str("a3s://memory/").concat(path);
        Pathway::parse(text.as_str())
    }

    /// The pathway `a3s://capability/` followed by `path`.
    pub fn capability(path: &str) -> (r: Result<Pathway>)
        ensures
            parsed_as(r, "a3s://capability/"@ + path@),
    {
        let text = String::from_str("a3s://capability/").concat(path);
        Pathway::parse(text.as_str())
    }
}

impl Clone for Pathway {
    fn clone(&self) -> (r: Pathway)
        ensures
            r@ == self@,
    {
        let segments = copy_strings(&self.segments, self.segments.len());
        assert(string_views(self.segments@).take(self.segments.len() as int) == string_views(self.segments@));
        Pathway { namespace: self.namespace, segments }
    }
}

impl PartialEq for Pathway {
    fn eq(&self, other: &Pathway) -> (r: bool) {
        let r = self.segments.len() == other.segments.len() && self.is_prefix_of(other);
        proof {
            let mine = self@.segments;
            let theirs = other@.segments;
            if r {
                assert(theirs.subrange(0, mine.len() as int) == theirs);
            }
            if self@ == other@ {
                assert(theirs.subrange(0, mine.len() as int) == theirs);
            }
        }
        r
    }
}

impl vstd::std_specs::cmp::PartialEqSpecImpl for Pathway {
    open spec fn obeys_eq_spec() -> bool {
        true
    }

    open spec fn eq_spec(&self, other: &Pathway) -> bool {
        self@ == other@
    }
}

impl Eq for Pathway {

}

impl vstd::std_specs::convert::TryFromSpecImpl<&str> for Pathway {
    open spec fn obeys_try_from_spec() -> bool {
        false
    }

    open spec fn try_from_spec(s: &str) -> Result<Pathway> {
        Err(A3SError::NotInitialized)
    }
}

impl TryFrom<&str> for Pathway {
    type Error = A3SError;

    /// The pathway that `s` denotes; see `Pathway::parse`.
    fn try_from(s: &str) -> (r: Result<Pathway>)
        ensures
            parsed_as(r, s@),
    {
        Pathway::parse(s)
    }
}

impl vstd::std_specs::convert::TryFromSpecImpl<String> for Pathway {
    open spec fn obeys_try_from_spec() -> bool {
        false
    }

    open spec fn try_from_spec(s: String) -> Result<Pathway> {
        Err(A3SError::NotInitialized)
    }
}

impl TryFrom<String> for Pathway {
    type Error = A3SError;

    /// The pathway that `s` denotes; see `Pathway::parse`.
    fn try_from(s: String) -> (r: Result<Pathway>)
        ensures
            parsed_as(r, s@),
    {
        Pathway::parse(s.as_str())
    }
}

} // verus!

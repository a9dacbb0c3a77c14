//! Layered summaries of a node's content, and the local fallback that
//! makes them when no summarization service is configured.

use vstd::prelude::*;
use vstd::string::*;

use crate::node::NodeKind;
use crate::text::{chars_of, copy_range, trim, trim_bounds};

verus! {

/// Layered summary of a node. The full level is the node's own content
/// and is not stored here.
#[derive(Debug)]
pub struct Digest {
    /// Brief summary (about 50 tokens).
    pub brief: String,
    /// Medium summary (about 500 tokens).
    pub summary: String,
    /// Whether the summaries have been generated.
    pub generated: bool,
}

/// What a digest holds.
pub struct DigestView {
    pub brief: Seq<char>,
    pub summary: Seq<char>,
    pub generated: bool,
}

impl View for Digest {
    type V = DigestView;

    open spec fn view(&self) -> DigestView {
        DigestView { brief: self.brief@, summary: self.summary@, generated: self.generated }
    }
}

impl DigestView {
    /// The digest of a node whose summaries have not been made.
    pub open spec fn ungenerated() -> DigestView {
        DigestView { brief: Seq::empty(), summary: Seq::empty(), generated: false }
    }
}

/// Level of digest detail.
#[derive(Debug, Clone, Copy, PartialEq, Eq, Structural)]
pub enum DigestLevel {
    /// Brief summary only.
    Brief,
    /// Medium summary.
    Summary,
    /// Full content.
    Full,
}

/// The level that fits a budget of `max_tokens`.
pub open spec fn level_for(max_tokens: int) -> DigestLevel {
    if max_tokens < 100 {
        DigestLevel::Brief
    } else if max_tokens < 1000 {
        DigestLevel::Summary
    } else {
        DigestLevel::Full
    }
}

impl Digest {
    /// An empty, ungenerated digest.
    pub fn new() -> (d: Digest)
        ensures
            d@ == DigestView::ungenerated(),
    {
        Digest { brief: String::new(), summary: String::new(), generated: false }
    }

    /// A generated digest with the given summaries.
    pub fn with_content(brief: String, summary: String) -> (d: Digest)
        ensures
            d@ == (DigestView { brief: brief@, summary: summary@, generated: true }),
    {
        Digest { brief, summary, generated: true }
    }

    /// Whether the summaries have been generated.
    pub fn is_generated(&self) -> (r: bool)
        ensures
            r == self@.generated,
    {
        self.generated
    }

    /// The level of detail to read under a budget of `max_tokens`.
    pub fn get_level(&self, max_tokens: usize) -> (level: DigestLevel)
        ensures
            level == level_for(max_tokens as int),
    {
        if max_tokens < 100 {
            DigestLevel::Brief
        } else if max_tokens < 1000 {
            DigestLevel::Summary
        } else {
            DigestLevel::Full
        }
    }
}

impl Default for Digest {
    fn default() -> (d: Digest)
        ensures
            d@ == DigestView::ungenerated(),
    {
        Digest::new()
    }
}

impl Clone for Digest {
    fn clone(&self) -> (d: Digest)
        ensures
            d@ == self@,
    {
        Digest {
            brief: self.brief.clone(),
            summary: self.summary.clone(),
            generated: self.generated,
        }
    }
}

/// Connection settings of a summarization service.
#[derive(Debug)]
pub struct LLMClient {
    api_base: String,
    api_key: String,
    model: String,
}

impl LLMClient {
    /// Settings for the service at `api_base`.
    pub fn new(api_base: String, api_key: String, model: String) -> (c: LLMClient)
        ensures
            c.base_text() == api_base@,
            c.key_text() == api_key@,
            c.model_text() == model@,
    {
        LLMClient { api_base, api_key, model }
    }

    /// The base address of the service.
    pub closed spec fn base_text(&self) -> Seq<char> {
        self.api_base@
    }

    /// The credential sent with each request.
    pub closed spec fn key_text(&self) -> Seq<char> {
        self.api_key@
    }

    /// The model asked for.
    pub closed spec fn model_text(&self) -> Seq<char> {
        self.model@
    }

    /// The base address of the service.
    pub fn api_base(&self) -> (r: &str)
        ensures
            r@ == self.base_text(),
    {
        self.api_base.as_str()
    }

    /// The credential sent with each request.
    pub fn api_key(&self) -> (r: &str)
        ensures
            r@ == self.key_text(),
    {
        self.api_key.as_str()
    }

    /// The model asked for.
    pub fn model(&self) -> (r: &str)
        ensures
            r@ == self.model_text(),
    {
        self.model.as_str()
    }
}

/// Maker of digests: through a summarization service where one is
/// configured, else by the local fallback.
#[derive(Debug)]
pub struct DigestGenerator {
    llm_client: Option<LLMClient>,
}

/// How a kind of node is called in a prompt.
pub open spec fn kind_text(kind: NodeKind) -> Seq<char> {
    match kind {
        NodeKind::Document => "document"@,
        NodeKind::Code => "code"@,
        NodeKind::Markdown => "markdown document"@,
        NodeKind::Memory => "memory"@,
        NodeKind::Capability => "capability"@,
        NodeKind::Message => "message"@,
        NodeKind::Data => "data"@,
        NodeKind::Directory => "directory"@,
    }
}

/// How a kind of node is called in a prompt.
pub fn kind_to_str(kind: NodeKind) -> (r: &'static str)
    ensures
        r@ == kind_text(kind),
{
    match kind {
        NodeKind::Document => "document",
        NodeKind::Code => "code",
        NodeKind::Markdown => "markdown document",
        NodeKind::Memory => "memory",
        NodeKind::Capability => "capability",
        NodeKind::Message => "message",
        NodeKind::Data => "data",
        NodeKind::Directory => "directory",
    }
}

/// The first `max_chars` characters of `s`; all of `s` when it has no
/// more.
pub open spec fn truncated(s: Seq<char>, max_chars: int) -> Seq<char> {
    if s.len() <= max_chars {
        s
    } else {
        s.take(max_chars)
    }
}

/// The first `max_chars` characters of `s`.
pub fn truncate(s: &str, max_chars: usize) -> (r: &str)
    ensures
        r@ == truncated(s@, max_chars as int),
{
    let n = s.unicode_len();
    if n <= max_chars {
        s
    } else {
        s.substring_char(0, max_chars)
    }
}

/// Whether a sentence ends at `i`: one of `.`, `!`, `?` stands there,
/// followed by a space or a line feed.
pub open spec fn sentence_ends_at(t: Seq<char>, i: int) -> bool {
    &&& 0 <= i
    &&& i + 1 < t.len()
    &&& (t[i] == '.' || t[i] == '!' || t[i] == '?')
    &&& (t[i + 1] == ' ' || t[i + 1] == '\n')
}

/// Length of the first sentence of `t`, searched from `from`: one past
/// the first terminator, or all of `t` when no sentence ends in it.
pub open spec fn sentence_length(t: Seq<char>, from: int) -> int
    decreases t.len() - from,
{
    if from < 0 || from >= t.len() {
        t.len() as int
    } else if sentence_ends_at(t, from) {
        from + 1
    } else {
        sentence_length(t, from + 1)
    }
}

/// Longest brief that the fallback makes, in characters.
pub const BRIEF_LIMIT: usize = 200;

/// Longest summary that the fallback makes, in characters.
pub const SUMMARY_LIMIT: usize = 2000;

/// The first sentence of `s`, at most `BRIEF_LIMIT` characters of it,
/// trimmed.
pub open spec fn first_sentence(s: Seq<char>) -> Seq<char> {
    let t = trim(s);
    let end = sentence_length(t, 0);
    if end <= BRIEF_LIMIT {
        trim(t.take(end))
    } else {
        trim(t.take(BRIEF_LIMIT as int))
    }
}

proof fn lemma_sentence_length_bounds(t: Seq<char>, from: int)
    requires
        0 <= from <= t.len(),
    ensures
        from <= sentence_length(t, from) <= t.len(),
    decreases t.len() - from,
{
    if from < t.len() && !sentence_ends_at(t, from) {
        lemma_sentence_length_bounds(t, from + 1);
    }
}

/// The first sentence of `s`: the text up to and including the first
/// `.`, `!` or `?` that a space or a line feed follows, at most 200
/// characters of it, with white space trimmed at both ends.
pub fn extract_first_sentence(s: &str) -> (r: String)
    ensures
        r@ == first_sentence(s@),
{
    let chars = chars_of(s);
    let (a, b) = trim_bounds(&chars);
    let t = copy_range(&chars, a, b);
    assert(t@ == trim(s@));
    let n = t.len();
    let mut i: usize = 0;
    let mut end: usize = n;
    let mut found = false;
    while i < n && !found
        invariant
            n == t.len(),
            i <= n,
            !found ==> end == n && sentence_length(t@, 0) == sentence_length(t@, i as int),
            found ==> end == sentence_length(t@, 0),
        decreases n - i + (if found { 0int } else { 1int }),
    {
        let c = t[i];
        if i + 1 < n && (c == '.' || c == '!' || c == '?') && (t[i + 1] == ' ' || t[i + 1]
            == '\n') {
            assert(sentence_ends_at(t@, i as int));
            end = i + 1;
            found = true;
        } else {
            assert(!sentence_ends_at(t@, i as int));
            i += 1;
        }
    }
    proof {
        lemma_sentence_length_bounds(t@, 0);
    }
    let cut = if end <= BRIEF_LIMIT {
        end
    } else {
        BRIEF_LIMIT
    };
    let head = copy_range(&t, 0, cut);
    assert(head@ == t@.take(cut as int));
    let (x, y) = trim_bounds(&head);
    assert(a + y <= b);
    let part = s.substring_char(a + x, a + y);
    assert(part@ == trim(head@)) by {
        assert(s@.subrange(a + x, a + y) == head@.subrange(x as int, y as int));
    }
    String::from_str(part)
}

/// Most characters of content that the prompt for a brief carries.
pub const BRIEF_PROMPT_LIMIT: usize = 4000;

/// Most characters of content that the prompt for a summary carries.
pub const SUMMARY_PROMPT_LIMIT: usize = 8000;

/// The prompt that asks for a brief of `content`.
pub open spec fn brief_prompt_text(content: Seq<char>, kind: NodeKind) -> Seq<char> {
    "Summarize the following "@ + kind_text(kind)
        + " in one concise sentence (max 50 tokens):\n\n"@ + truncated(
        content,
        BRIEF_PROMPT_LIMIT as int,
    )
}

/// The prompt that asks for a summary of `content`.
pub open spec fn summary_prompt_text(content: Seq<char>, kind: NodeKind) -> Seq<char> {
    "Provide a comprehensive summary of the following "@ + kind_text(kind)
        + " (max 500 tokens). Include key points, main concepts, and important details:\n\n"@
        + truncated(content, SUMMARY_PROMPT_LIMIT as int)
}

/// `serde_json::Value`, indexed by `choices`, `0`, `message` and
/// `content`, then read with `Value::as_str`: the text of the first
/// completion of an answer, where the answer has that shape. Nothing is
/// claimed of it.
#[verifier::external_body]
fn first_completion(answer: &serde_json::Value) -> (r: Option<String>) {
    answer["choices"][0]["message"]["content"].as_str().map(|s| s.to_string())
}

/// The text of the first completion that `serde_json` finds in an answer
/// of the summarization service; see `completion_from` for either outcome.
pub fn completion_text(answer: &serde_json::Value) -> (r: crate::error::Result<String>)
    ensures
        r is Err ==> r->Err_0 is DigestGeneration && r->Err_0.detail() == "Invalid response format"@,
{
    completion_from(first_completion(answer))
}

/// What is made of the first completion that was looked for in an
/// answer: its text where one was found, a digest error where none was.
pub fn completion_from(found: Option<String>) -> (r: crate::error::Result<String>)
    ensures
        match found {
            Some(text) => r is Ok && r->Ok_0 == text,
            None => r is Err && r->Err_0 is DigestGeneration && r->Err_0.detail()
                == "Invalid response format"@,
        },
{
    match found {
        Some(text) => Ok(text),
        None => Err(
            crate::error::A3SError::DigestGeneration(String::from_str("Invalid response format")),
        ),
    }
}

impl DigestGenerator {
    /// The prompt that asks the summarization service for a brief.
    pub fn brief_prompt(content: &str, kind: NodeKind) -> (r: String)
        ensures
            r@ == brief_prompt_text(content@, kind),
    {
        String::from_str("Summarize the following ").concat(kind_to_str(kind)).concat(
            " in one concise sentence (max 50 tokens):\n\n",
        ).concat(truncate(content, BRIEF_PROMPT_LIMIT))
    }

    /// The prompt that asks the summarization service for a summary.
    pub fn summary_prompt(content: &str, kind: NodeKind) -> (r: String)
        ensures
            r@ == summary_prompt_text(content@, kind),
    {
        String::from_str("Provide a comprehensive summary of the following ").concat(
            kind_to_str(kind),
        ).concat(
            " (max 500 tokens). Include key points, main concepts, and important details:\n\n",
        ).concat(truncate(content, SUMMARY_PROMPT_LIMIT))
    }

    /// A generator that uses `llm_client` where it is given.
    pub fn new(llm_client: Option<LLMClient>) -> (g: DigestGenerator)
        ensures
            g.has_client() == llm_client.is_some(),
    {
        DigestGenerator { llm_client }
    }

    /// Whether a summarization service is configured.
    pub closed spec fn has_client(&self) -> bool {
        self.llm_client.is_some()
    }

    /// The configured summarization service, if any.
    pub fn client(&self) -> (r: Option<&LLMClient>)
        ensures
            r.is_some() == self.has_client(),
    {
        self.llm_client.as_ref()
    }

    /// The digest that the local fallback makes of `content`: its first
    /// sentence as the brief, its first 2000 characters as the summary.
    pub fn generate_simple(&self, content: &str) -> (d: Digest)
        ensures
            d@ == (DigestView {
                brief: first_sentence(content@),
                summary: truncated(content@, SUMMARY_LIMIT as int),
                generated: true,
            }),
    {
        let brief = extract_first_sentence(content);
        let summary = String::from_str(truncate(content, SUMMARY_LIMIT));
        Digest::with_content(brief, summary)
    }
}

} // verus!

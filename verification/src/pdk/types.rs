//! The plain data a plugin exchanges with the host: spans, tokens, sentences, diagnostics,
//! the rule manifest and the lint request.
use vstd::prelude::*;
use crate::json::{same_json, views, JsonValue};
use crate::text::str_eq;

verus! {

/// The characters of an optional string slice.
pub open spec fn opt_chars(o: Option<&str>) -> Option<Seq<char>> {
    match o {
        Some(s) => Some(s@),
        None => None,
    }
}

/// The characters of an optional string.
pub open spec fn opt_string_chars(o: Option<String>) -> Option<Seq<char>> {
    match o {
        Some(s) => Some(s@),
        None => None,
    }
}

/// The characters of each string.
pub open spec fn strings_chars(v: Seq<String>) -> Seq<Seq<char>> {
    v.map_values(|s: String| s@)
}

/// Element `i` of `v` by its characters, if there is one.
pub open spec fn string_at(v: Seq<String>, i: int) -> Option<Seq<char>> {
    if 0 <= i < v.len() {
        Some(v[i]@)
    } else {
        None
    }
}

/// `v.get(i).map(String::as_str)`.
fn string_slot(v: &Vec<String>, i: usize) -> (r: Option<&str>)
    ensures
        opt_chars(r) == string_at(v@, i as int),
{
    if i < v.len() {
        Some(v[i].as_str())
    } else {
        None
    }
}

/// A copy of a list of strings.
pub fn copy_strings(v: &Vec<String>) -> (r: Vec<String>)
    ensures
        views(r@) == views(v@),
{
    let mut r: Vec<String> = Vec::new();
    let mut i: usize = 0;
    while i < v.len()
        invariant
            i <= v@.len(),
            views(r@) == views(v@.take(i as int)),
        decreases v.len() - i,
    {
        let ghost before = r@;
        r.push(v[i].clone());
        assert(views(r@) =~= views(before).push(v@[i as int]@));
        assert(views(v@.take(i + 1)) =~= views(v@.take(i as int)).push(v@[i as int]@));
        i = i + 1;
    }
    assert(v@.take(i as int) =~= v@);
    r
}

/// Whether an optional string slice is `Some(word)`.
fn slot_is(o: Option<&str>, word: &str) -> (b: bool)
    ensures
        b == (opt_chars(o) == Some(word@)),
{
    match o {
        Some(s) => str_eq(s, word),
        None => false,
    }
}

/// The length in bytes of `[start, end)`; zero when `end` does not lie after `start`.
pub open spec fn span_len(start: u32, end: u32) -> nat {
    if end >= start {
        (end - start) as nat
    } else {
        0
    }
}

/// A span is empty exactly when its length is zero (for `Span` and `TextSpan` alike: their
/// `is_empty` is `start >= end` and their `len` is [`span_len`]).
pub proof fn law_empty_iff_zero_length(start: u32, end: u32)
    ensures
        (start >= end) == (span_len(start, end) == 0),
{
}

/// Byte span for text analysis results (`start` inclusive, `end` exclusive).
#[derive(Clone, Copy, Debug, PartialEq, Eq, Structural)]
pub struct TextSpan {
    pub start: u32,
    pub end: u32,
}

impl TextSpan {
    pub fn new(start: u32, end: u32) -> (r: TextSpan)
        ensures
            r.start == start,
            r.end == end,
    {
        TextSpan { start, end }
    }

    /// The length in bytes; zero when `end` does not lie after `start`.
    pub fn len(&self) -> (n: u32)
        ensures
            n == span_len(self.start, self.end),
    {
        if self.end >= self.start {
            self.end - self.start
        } else {
            0
        }
    }

    pub fn is_empty(&self) -> (b: bool)
        ensures
            b == (self.start >= self.end),
    {
        self.start >= self.end
    }
}

/// Byte span in source text (`start` inclusive, `end` exclusive).
#[derive(Clone, Copy, Debug, PartialEq, Eq, Structural)]
pub struct Span {
    pub start: u32,
    pub end: u32,
}

impl Span {
    pub fn new(start: u32, end: u32) -> (r: Span)
        ensures
            r.start == start,
            r.end == end,
    {
        Span { start, end }
    }

    /// The length in bytes; zero when `end` does not lie after `start`.
    pub fn len(&self) -> (n: u32)
        ensures
            n == span_len(self.start, self.end),
    {
        if self.end >= self.start {
            self.end - self.start
        } else {
            0
        }
    }

    pub fn is_empty(&self) -> (b: bool)
        ensures
            b == (self.start >= self.end),
    {
        self.start >= self.end
    }
}

/// Severity level for diagnostics.
#[derive(Clone, Copy, Debug, PartialEq, Eq, Structural)]
pub enum Severity {
    Error,
    Warning,
    Info,
}

impl Default for Severity {
    /// `Error` is the default level.
    fn default() -> (r: Severity)
        ensures
            r == Severity::Error,
    {
        Severity::Error
    }
}

/// An auto-fix: replace `span` by `text`.
#[derive(Debug)]
pub struct Fix {
    pub span: Span,
    pub text: String,
}

impl Fix {
    /// Replace `span` by `text`.
    pub fn new(span: Span, text: &str) -> (r: Fix)
        ensures
            r.span == span,
            r.text@ == text@,
    {
        Fix { span, text: text.to_owned() }
    }

    /// Insert `text` at byte `offset`.
    pub fn insert(offset: u32, text: &str) -> (r: Fix)
        ensures
            r.span.start == offset && r.span.end == offset,
            r.text@ == text@,
    {
        Fix { span: Span::new(offset, offset), text: text.to_owned() }
    }

    /// Delete `span`.
    pub fn delete(span: Span) -> (r: Fix)
        ensures
            r.span == span,
            r.text@.len() == 0,
    {
        Fix { span, text: String::new() }
    }
}

/// A diagnostic message from a lint rule.
#[derive(Debug)]
pub struct Diagnostic {
    pub rule_id: String,
    pub message: String,
    pub span: Span,
    pub severity: Severity,
    pub fix: Option<Fix>,
}

impl Diagnostic {
    /// A diagnostic with `Error` severity and no fix.
    pub fn new(rule_id: &str, message: &str, span: Span) -> (r: Diagnostic)
        ensures
            r.rule_id@ == rule_id@,
            r.message@ == message@,
            r.span == span,
            r.severity == Severity::Error,
            r.fix.is_none(),
    {
        Diagnostic {
            rule_id: rule_id.to_owned(),
            message: message.to_owned(),
            span,
            severity: Severity::Error,
            fix: None,
        }
    }

    /// A diagnostic with `Warning` severity and no fix.
    pub fn warning(rule_id: &str, message: &str, span: Span) -> (r: Diagnostic)
        ensures
            r.rule_id@ == rule_id@,
            r.message@ == message@,
            r.span == span,
            r.severity == Severity::Warning,
            r.fix.is_none(),
    {
        Diagnostic {
            rule_id: rule_id.to_owned(),
            message: message.to_owned(),
            span,
            severity: Severity::Warning,
            fix: None,
        }
    }

    /// The same diagnostic at another severity.
    pub fn with_severity(self, severity: Severity) -> (r: Diagnostic)
        ensures
            r.rule_id == self.rule_id,
            r.message == self.message,
            r.span == self.span,
            r.severity == severity,
            r.fix == self.fix,
    {
        let mut d = self;
        d.severity = severity;
        d
    }

    /// The same diagnostic carrying `fix`.
    pub fn with_fix(self, fix: Fix) -> (r: Diagnostic)
        ensures
            r.rule_id == self.rule_id,
            r.message == self.message,
            r.span == self.span,
            r.severity == self.severity,
            r.fix == Some(fix),
    {
        let mut d = self;
        d.fix = Some(fix);
        d
    }
}

/// Response from a rule's lint function.
#[derive(Debug)]
pub struct LintResponse {
    pub diagnostics: Vec<Diagnostic>,
}

/// Languages a rule can declare support for.
#[derive(Clone, Copy, Debug, PartialEq, Eq, Structural)]
pub enum KnownLanguage {
    Ja,
    En,
}

impl Default for KnownLanguage {
    /// Japanese is the default language.
    fn default() -> (r: KnownLanguage)
        ensures
            r == KnownLanguage::Ja,
    {
        KnownLanguage::Ja
    }
}

/// Analysis a rule needs from the host.
#[derive(Clone, Copy, Debug, PartialEq, Eq, Structural)]
pub enum Capability {
    /// Morphological analysis (tokenization).
    Morphology,
    /// Sentence boundary detection.
    Sentences,
}

/// What a rule declares about itself when it registers.
#[derive(Debug)]
pub struct RuleManifest {
    pub name: String,
    pub version: String,
    pub description: Option<String>,
    pub fixable: bool,
    pub node_types: Vec<String>,
    pub languages: Vec<KnownLanguage>,
    pub capabilities: Vec<Capability>,
}

impl RuleManifest {
    /// A manifest with no description, not fixable, and no node types, languages or
    /// capabilities.
    pub fn new(name: &str, version: &str) -> (r: RuleManifest)
        ensures
            r.name@ == name@,
            r.version@ == version@,
            r.description.is_none(),
            !r.fixable,
            r.node_types@.len() == 0,
            r.languages@.len() == 0,
            r.capabilities@.len() == 0,
    {
        RuleManifest {
            name: name.to_owned(),
            version: version.to_owned(),
            description: None,
            fixable: false,
            node_types: Vec::new(),
            languages: Vec::new(),
            capabilities: Vec::new(),
        }
    }

    pub fn with_description(self, description: &str) -> (r: RuleManifest)
        ensures
            opt_string_chars(r.description) == Some(description@),
            r.name == self.name,
            r.version == self.version,
            r.fixable == self.fixable,
            r.node_types == self.node_types,
            r.languages == self.languages,
            r.capabilities == self.capabilities,
    {
        let mut m = self;
        m.description = Some(description.to_owned());
        m
    }

    pub fn with_fixable(self, fixable: bool) -> (r: RuleManifest)
        ensures
            r.fixable == fixable,
            r.name == self.name,
            r.version == self.version,
            r.description == self.description,
            r.node_types == self.node_types,
            r.languages == self.languages,
            r.capabilities == self.capabilities,
    {
        let mut m = self;
        m.fixable = fixable;
        m
    }

    pub fn with_node_types(self, node_types: Vec<String>) -> (r: RuleManifest)
        ensures
            r.node_types == node_types,
            r.name == self.name,
            r.version == self.version,
            r.description == self.description,
            r.fixable == self.fixable,
            r.languages == self.languages,
            r.capabilities == self.capabilities,
    {
        let mut m = self;
        m.node_types = node_types;
        m
    }

    pub fn with_languages(self, languages: Vec<KnownLanguage>) -> (r: RuleManifest)
        ensures
            r.languages == languages,
            r.name == self.name,
            r.version == self.version,
            r.description == self.description,
            r.fixable == self.fixable,
            r.node_types == self.node_types,
            r.capabilities == self.capabilities,
    {
        let mut m = self;
        m.languages = languages;
        m
    }

    pub fn with_capabilities(self, capabilities: Vec<Capability>) -> (r: RuleManifest)
        ensures
            r.capabilities == capabilities,
            r.name == self.name,
            r.version == self.version,
            r.description == self.description,
            r.fixable == self.fixable,
            r.node_types == self.node_types,
            r.languages == self.languages,
    {
        let mut m = self;
        m.capabilities = capabilities;
        m
    }
}

/// A position in the document (1-based line and column).
#[derive(Clone, Copy, Debug, PartialEq, Eq, Structural)]
pub struct Position {
    pub line: u32,
    pub column: u32,
}

impl Position {
    pub fn new(line: u32, column: u32) -> (r: Position)
        ensures
            r.line == line,
            r.column == column,
    {
        Position { line, column }
    }
}

/// Line and column location of a node.
#[derive(Clone, Copy, Debug, PartialEq, Eq, Structural)]
pub struct LintLocation {
    pub start: Position,
    pub end: Position,
}

/// The node's neighbours and depth.
#[derive(Debug)]
pub struct LintContext {
    pub previous_node_type: Option<String>,
    pub next_node_type: Option<String>,
    pub parent_node_type: Option<String>,
    /// Nesting depth in the AST (0 = root).
    pub depth: u32,
}

impl Default for LintContext {
    /// No neighbours known, depth 0.
    fn default() -> (r: LintContext)
        ensures
            r.previous_node_type.is_none(),
            r.next_node_type.is_none(),
            r.parent_node_type.is_none(),
            r.depth == 0,
    {
        LintContext { previous_node_type: None, next_node_type: None, parent_node_type: None, depth: 0 }
    }
}

/// Where the node sits in the document structure.
#[derive(Clone, Copy, Debug, PartialEq, Eq, Structural)]
pub struct LintFlags {
    pub in_code_block: bool,
    pub in_code_inline: bool,
    pub in_heading: bool,
    pub in_list: bool,
    pub in_blockquote: bool,
    pub in_link: bool,
    pub in_table: bool,
}

impl Default for LintFlags {
    /// Every flag off.
    fn default() -> (r: LintFlags)
        ensures
            !r.in_code_block && !r.in_code_inline && !r.in_heading && !r.in_list,
            !r.in_blockquote && !r.in_link && !r.in_table,
    {
        LintFlags {
            in_code_block: false,
            in_code_inline: false,
            in_heading: false,
            in_list: false,
            in_blockquote: false,
            in_link: false,
            in_table: false,
        }
    }
}

/// Information the host computes for the node ahead of the rule.
#[derive(Debug)]
pub struct LintHelpers {
    /// The node's text, already extracted.
    pub text: Option<String>,
    pub location: Option<LintLocation>,
    pub context: Option<LintContext>,
    pub flags: LintFlags,
    pub text_context: Option<TextContext>,
}

impl Default for LintHelpers {
    /// Nothing precomputed, every flag off.
    fn default() -> (r: LintHelpers)
        ensures
            r.text.is_none(),
            r.location.is_none(),
            r.context.is_none(),
            !r.flags.in_code_block && !r.flags.in_code_inline && !r.flags.in_heading,
            !r.flags.in_list && !r.flags.in_blockquote && !r.flags.in_link && !r.flags.in_table,
            r.text_context.is_none(),
    {
        LintHelpers { text: None, location: None, context: None, flags: LintFlags::default(), text_context: None }
    }
}

/// A morphological token: its surface, part-of-speech tags, conjugation details and span.
#[derive(Debug)]
pub struct Token {
    pub surface: String,
    /// Part-of-speech tags, major first (e.g. `["名詞", "一般"]`).
    pub pos: Vec<String>,
    /// Conjugation type, conjugation form, base form, reading.
    pub detail: Vec<String>,
    pub span: TextSpan,
}

impl Token {
    /// A token with no detail.
    pub fn new(surface: &str, pos: Vec<String>, span: TextSpan) -> (r: Token)
        ensures
            r.surface@ == surface@,
            r.pos == pos,
            r.detail@.len() == 0,
            r.span == span,
    {
        Token { surface: surface.to_owned(), pos, detail: Vec::new(), span }
    }

    /// A copy of the token (`Clone`).
    pub fn duplicate(&self) -> (r: Token)
        ensures
            r.surface@ == self.surface@,
            views(r.pos@) == views(self.pos@),
            views(r.detail@) == views(self.detail@),
            r.span == self.span,
    {
        Token {
            surface: self.surface.clone(),
            pos: copy_strings(&self.pos),
            detail: copy_strings(&self.detail),
            span: self.span,
        }
    }

    /// The same token with `detail`.
    pub fn with_detail(self, detail: Vec<String>) -> (r: Token)
        ensures
            r.surface == self.surface,
            r.pos == self.pos,
            r.detail == detail,
            r.span == self.span,
    {
        let mut t = self;
        t.detail = detail;
        t
    }

    /// Whether one of the part-of-speech tags is `tag`.
    pub open spec fn spec_has_pos(&self, tag: Seq<char>) -> bool {
        exists|i: int| 0 <= i < self.pos@.len() && #[trigger] self.pos@[i]@ == tag
    }

    pub fn has_pos(&self, pos_tag: &str) -> (b: bool)
        ensures
            b == self.spec_has_pos(pos_tag@),
    {
        let mut i: usize = 0;
        while i < self.pos.len()
            invariant
                i <= self.pos@.len(),
                forall|k: int| 0 <= k < i ==> self.pos@[k]@ != pos_tag@,
            decreases self.pos.len() - i,
        {
            if str_eq(self.pos[i].as_str(), pos_tag) {
                return true;
            }
            i = i + 1;
        }
        false
    }

    /// The major part of speech (`pos[0]`).
    pub fn major_pos(&self) -> (r: Option<&str>)
        ensures
            opt_chars(r) == string_at(self.pos@, 0),
    {
        string_slot(&self.pos, 0)
    }

    /// The part-of-speech tag at `level` (0 = major).
    pub fn pos_detail(&self, level: usize) -> (r: Option<&str>)
        ensures
            opt_chars(r) == string_at(self.pos@, level as int),
    {
        string_slot(&self.pos, level)
    }

    /// The conjugation type (`detail[0]`).
    pub fn conjugation_type(&self) -> (r: Option<&str>)
        ensures
            opt_chars(r) == string_at(self.detail@, 0),
    {
        string_slot(&self.detail, 0)
    }

    /// The conjugation form (`detail[1]`).
    pub fn conjugation_form(&self) -> (r: Option<&str>)
        ensures
            opt_chars(r) == string_at(self.detail@, 1),
    {
        string_slot(&self.detail, 1)
    }

    /// The dictionary form (`detail[2]`).
    pub fn base_form(&self) -> (r: Option<&str>)
        ensures
            opt_chars(r) == string_at(self.detail@, 2),
    {
        string_slot(&self.detail, 2)
    }

    /// The reading in katakana (`detail[3]`).
    pub fn reading(&self) -> (r: Option<&str>)
        ensures
            opt_chars(r) == string_at(self.detail@, 3),
    {
        string_slot(&self.detail, 3)
    }

    /// Whether the major part of speech is `major`.
    pub open spec fn major_is(&self, major: Seq<char>) -> bool {
        string_at(self.pos@, 0) == Some(major)
    }

    pub fn is_verb(&self) -> (b: bool)
        ensures
            b == self.major_is("動詞"@),
    {
        slot_is(self.major_pos(), "動詞")
    }

    pub fn is_noun(&self) -> (b: bool)
        ensures
            b == self.major_is("名詞"@),
    {
        slot_is(self.major_pos(), "名詞")
    }

    pub fn is_particle(&self) -> (b: bool)
        ensures
            b == self.major_is("助詞"@),
    {
        slot_is(self.major_pos(), "助詞")
    }

    pub fn is_auxiliary_verb(&self) -> (b: bool)
        ensures
            b == self.major_is("助動詞"@),
    {
        slot_is(self.major_pos(), "助動詞")
    }

    pub fn is_adjective(&self) -> (b: bool)
        ensures
            b == self.major_is("形容詞"@),
    {
        slot_is(self.major_pos(), "形容詞")
    }

    /// Whether the conjugation form is 連用形.
    pub fn is_renyoukei(&self) -> (b: bool)
        ensures
            b == (string_at(self.detail@, 1) == Some("連用形"@)),
    {
        slot_is(self.conjugation_form(), "連用形")
    }
}

/// A sentence found by the host's text analysis.
#[derive(Debug)]
pub struct TextSentence {
    pub text: String,
    pub span: TextSpan,
}

impl TextSentence {
    pub fn new(text: &str, span: TextSpan) -> (r: TextSentence)
        ensures
            r.text@ == text@,
            r.span == span,
    {
        TextSentence { text: text.to_owned(), span }
    }
}

/// The tokens of `ts` that carry the part-of-speech tag `tag`, in order.
pub open spec fn tokens_having(ts: Seq<Token>, tag: Seq<char>) -> Seq<Token>
    decreases ts.len(),
{
    if ts.len() == 0 {
        seq![]
    } else if ts.last().spec_has_pos(tag) {
        tokens_having(ts.drop_last(), tag).push(ts.last())
    } else {
        tokens_having(ts.drop_last(), tag)
    }
}

/// Tokens and sentences from the host's text analysis.
#[derive(Debug)]
pub struct TextContext {
    pub tokens: Vec<Token>,
    pub sentences: Vec<TextSentence>,
}

impl Default for TextContext {
    /// No tokens and no sentences.
    fn default() -> (r: TextContext)
        ensures
            r.tokens@.len() == 0,
            r.sentences@.len() == 0,
    {
        TextContext { tokens: Vec::new(), sentences: Vec::new() }
    }
}

impl TextContext {
    /// An empty context.
    pub fn new() -> (r: TextContext)
        ensures
            r.tokens@.len() == 0,
            r.sentences@.len() == 0,
    {
        TextContext { tokens: Vec::new(), sentences: Vec::new() }
    }

    pub fn with_analysis(tokens: Vec<Token>, sentences: Vec<TextSentence>) -> (r: TextContext)
        ensures
            r.tokens == tokens,
            r.sentences == sentences,
    {
        TextContext { tokens, sentences }
    }

    /// The tokens carrying the part-of-speech tag `pos_tag`, in order.
    pub fn tokens_with_pos(&self, pos_tag: &str) -> (r: Vec<&Token>)
        ensures
            r@.len() == tokens_having(self.tokens@, pos_tag@).len(),
            forall|k: int| 0 <= k < r@.len() ==> *r@[k] == tokens_having(self.tokens@, pos_tag@)[k],
    {
        let mut r: Vec<&Token> = Vec::new();
        let mut i: usize = 0;
        while i < self.tokens.len()
            invariant
                i <= self.tokens@.len(),
                r@.len() == tokens_having(self.tokens@.take(i as int), pos_tag@).len(),
                forall|k: int|
                    0 <= k < r@.len() ==> *r@[k] == tokens_having(self.tokens@.take(i as int), pos_tag@)[k],
            decreases self.tokens.len() - i,
        {
            proof {
                assert(self.tokens@.take(i + 1).drop_last() =~= self.tokens@.take(i as int));
            }
            if self.tokens[i].has_pos(pos_tag) {
                r.push(&self.tokens[i]);
            }
            i = i + 1;
        }
        assert(self.tokens@.take(i as int) =~= self.tokens@);
        r
    }

    /// Whether there are neither tokens nor sentences.
    pub fn is_empty(&self) -> (b: bool)
        ensures
            b == (self.tokens@.len() == 0 && self.sentences@.len() == 0),
    {
        self.tokens.len() == 0 && self.sentences.len() == 0
    }
}

/// A minimal AST node: its type and byte range.
#[derive(Debug)]
pub struct AstNode {
    pub type_: String,
    pub range: Option<[u32; 2]>,
}

impl AstNode {
    pub fn new(type_: &str, range: Option<[u32; 2]>) -> (r: AstNode)
        ensures
            r.type_@ == type_@,
            r.range == range,
    {
        AstNode { type_: type_.to_owned(), range }
    }
}

/// The request a rule's lint function receives.
#[derive(Debug)]
pub struct LintRequest {
    /// The node to check (the first one in batch mode).
    pub node: JsonValue,
    /// Every node to check in batch mode.
    pub nodes: Vec<JsonValue>,
    /// Rule configuration.
    pub config: JsonValue,
    /// The full source text.
    pub source: String,
    pub file_path: Option<String>,
    pub helpers: Option<LintHelpers>,
    /// Morphological tokens from the host.
    pub tokens: Vec<Token>,
    /// Sentences from the host.
    pub sentences: Vec<TextSentence>,
}

/// The nodes a request asks to check: `nodes`, or else `node` unless it is `null`.
pub open spec fn request_nodes(node: JsonValue, nodes: Seq<JsonValue>) -> Seq<JsonValue> {
    if nodes.len() == 0 {
        if node is Null {
            seq![]
        } else {
            seq![node]
        }
    } else {
        nodes
    }
}

/// A request built by [`LintRequest::single`] checks its one node, and one built by
/// [`LintRequest::batch`] checks exactly the nodes it was given: with nodes, `node` is their
/// first; without, it is `null`.
pub proof fn law_request_checks_its_nodes(first: JsonValue, nodes: Seq<JsonValue>)
    requires
        nodes.len() > 0 || first is Null,
    ensures
        request_nodes(first, nodes) == nodes,
{
}

impl LintRequest {
    /// A single-node request.
    pub fn single(node: JsonValue, config: JsonValue, source: String) -> (r: LintRequest)
        ensures
            same_json(r.node, node),
            r.nodes@ == seq![node],
            r.config == config,
            r.source == source,
            r.file_path.is_none(),
            r.helpers.is_none(),
            r.tokens@.len() == 0,
            r.sentences@.len() == 0,
    {
        let first = node.duplicate();
        LintRequest {
            node: first,
            nodes: vec![node],
            config,
            source,
            file_path: None,
            helpers: None,
            tokens: Vec::new(),
            sentences: Vec::new(),
        }
    }

    /// A batch request: `node` is a copy of the first node, or `null` for an empty batch.
    pub fn batch(nodes: Vec<JsonValue>, config: JsonValue, source: String) -> (r: LintRequest)
        ensures
            if nodes@.len() > 0 {
                same_json(r.node, nodes@[0])
            } else {
                r.node is Null
            },
            r.nodes == nodes,
            r.config == config,
            r.source == source,
            r.file_path.is_none(),
            r.helpers.is_none(),
            r.tokens@.len() == 0,
            r.sentences@.len() == 0,
    {
        let first = if nodes.len() > 0 {
            nodes[0].duplicate()
        } else {
            JsonValue::Null
        };
        LintRequest {
            node: first,
            nodes,
            config,
            source,
            file_path: None,
            helpers: None,
            tokens: Vec::new(),
            sentences: Vec::new(),
        }
    }

    /// Every node to check: `nodes`, or else `node` unless it is `null` (a host that sends one
    /// node sends no `nodes`).
    pub fn all_nodes(&self) -> (r: Vec<&JsonValue>)
        ensures
            r@.len() == request_nodes(self.node, self.nodes@).len(),
            forall|k: int| 0 <= k < r@.len() ==> *r@[k] == request_nodes(self.node, self.nodes@)[k],
    {
        let mut r: Vec<&JsonValue> = Vec::new();
        if self.nodes.len() == 0 {
            if !self.node.is_null() {
                r.push(&self.node);
            }
        } else {
            let mut i: usize = 0;
            while i < self.nodes.len()
                invariant
                    i <= self.nodes@.len(),
                    r@.len() == i,
                    forall|k: int| 0 <= k < i ==> *r@[k] == self.nodes@[k],
                decreases self.nodes.len() - i,
            {
                r.push(&self.nodes[i]);
                i = i + 1;
            }
        }
        r
    }

    /// Whether more than one node is to be checked.
    pub fn is_batch(&self) -> (b: bool)
        ensures
            b == (self.nodes@.len() > 1),
    {
        self.nodes.len() > 1
    }

    pub fn with_file_path(self, path: Option<&str>) -> (r: LintRequest)
        ensures
            opt_string_chars(r.file_path) == opt_chars(path),
            r.node == self.node,
            r.nodes == self.nodes,
            r.config == self.config,
            r.source == self.source,
            r.helpers == self.helpers,
            r.tokens == self.tokens,
            r.sentences == self.sentences,
    {
        let mut q = self;
        q.file_path = match path {
            Some(p) => Some(p.to_owned()),
            None => None,
        };
        q
    }

    pub fn with_helpers(self, helpers: LintHelpers) -> (r: LintRequest)
        ensures
            r.helpers == Some(helpers),
            r.node == self.node,
            r.nodes == self.nodes,
            r.config == self.config,
            r.source == self.source,
            r.file_path == self.file_path,
            r.tokens == self.tokens,
            r.sentences == self.sentences,
    {
        let mut q = self;
        q.helpers = Some(helpers);
        q
    }

    pub fn with_text_analysis(self, tokens: Vec<Token>, sentences: Vec<TextSentence>) -> (r: LintRequest)
        ensures
            r.tokens == tokens,
            r.sentences == sentences,
            r.node == self.node,
            r.nodes == self.nodes,
            r.config == self.config,
            r.source == self.source,
            r.file_path == self.file_path,
            r.helpers == self.helpers,
    {
        let mut q = self;
        q.tokens = tokens;
        q.sentences = sentences;
        q
    }

    /// The tokens of the helpers' text context when it has any, else the request's own.
    pub open spec fn spec_tokens(&self) -> Seq<Token> {
        match self.helpers {
            Some(h) => match h.text_context {
                Some(ctx) => if ctx.tokens@.len() > 0 { ctx.tokens@ } else { self.tokens@ },
                None => self.tokens@,
            },
            None => self.tokens@,
        }
    }

    /// The sentences of the helpers' text context when it has any, else the request's own.
    pub open spec fn spec_sentences(&self) -> Seq<TextSentence> {
        match self.helpers {
            Some(h) => match h.text_context {
                Some(ctx) => if ctx.sentences@.len() > 0 { ctx.sentences@ } else { self.sentences@ },
                None => self.sentences@,
            },
            None => self.sentences@,
        }
    }

    pub fn get_tokens(&self) -> (r: &[Token])
        ensures
            r@ == self.spec_tokens(),
    {
        if let Some(helpers) = &self.helpers {
            if let Some(ctx) = &helpers.text_context {
                if ctx.tokens.len() > 0 {
                    return ctx.tokens.as_slice();
                }
            }
        }
        self.tokens.as_slice()
    }

    pub fn get_sentences(&self) -> (r: &[TextSentence])
        ensures
            r@ == self.spec_sentences(),
    {
        if let Some(helpers) = &self.helpers {
            if let Some(ctx) = &helpers.text_context {
                if ctx.sentences.len() > 0 {
                    return ctx.sentences.as_slice();
                }
            }
        }
        self.sentences.as_slice()
    }
}

} // verus!

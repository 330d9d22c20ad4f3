//! The document model the built-in rules read (a node's kind, byte span and text) and the
//! reporting side they write to (rule metadata, diagnostics, fixes and the per-rule context).
use vstd::prelude::*;
use crate::morph::Token;

verus! {

/// A byte range `[start, end)` in the source.
#[derive(Clone, Copy, Debug, PartialEq, Eq, Structural)]
pub struct Span {
    pub start: u32,
    pub end: u32,
}

impl Span {
    pub fn new(start: u32, end: u32) -> (s: Span)
        ensures
            s == (Span { start, end }),
    {
        Span { start, end }
    }
}

/// `base + off`, saturating at `u32::MAX`; the offset is first narrowed to `u32` as `off as u32`.
pub open spec fn abs_pos(base: u32, off: int) -> u32 {
    base.saturating_add(off as u32)
}

/// The absolute span of the node-relative byte range `[start, end)`.
pub open spec fn abs_span(base: u32, start: int, end: int) -> Span {
    Span { start: abs_pos(base, start), end: abs_pos(base, end) }
}

/// Exec form of [`abs_span`].
pub fn make_span(base: u32, start: usize, end: usize) -> (s: Span)
    ensures
        s == abs_span(base, start as int, end as int),
{
    Span { start: base.saturating_add(start as u32), end: base.saturating_add(end as u32) }
}

/// How loudly a diagnostic is reported.
#[derive(Clone, Copy, Debug, PartialEq, Eq, Structural)]
pub enum Severity {
    Error,
    Warning,
    Info,
    Hint,
}

/// A document language.
#[derive(Clone, Copy, Debug, PartialEq, Eq, Structural)]
pub enum Lang {
    Ja,
    Ko,
    Zh,
    En,
}

/// The kind of a document node a rule visits.
#[derive(Clone, Copy, Debug, PartialEq, Eq, Structural)]
pub enum NodeKind {
    Root,
    Paragraph,
    Heading,
    TableCell,
    Text,
    /// A fenced or indented code block.
    Code,
    /// An inline code span.
    InlineCode,
    Link,
    List,
    ListItem,
    BlockQuote,
}

/// A replacement of the bytes in `span` by `text`.
#[derive(Clone, Debug)]
pub struct Fix {
    pub span: Span,
    pub replacement: String,
}

impl Fix {
    /// Replace `span` by `text`.
    pub fn replace(span: Span, text: String) -> (f: Fix)
        ensures
            f.span == span,
            f.replacement@ == text@,
    {
        Fix { span, replacement: text }
    }
}

/// What a reported diagnostic says: its span, its message and its fixes.
pub type Report = (Span, Seq<char>, Seq<(Span, Seq<char>)>);

/// A report with no fixes.
pub open spec fn plain(span: Span, message: Seq<char>) -> Report {
    (span, message, Seq::empty())
}

/// One diagnostic produced by a rule.
#[derive(Clone, Debug)]
pub struct Diagnostic {
    pub rule_id: String,
    pub severity: Severity,
    pub message: String,
    pub span: Span,
    pub fixes: Vec<Fix>,
}

pub open spec fn fix_view(f: Fix) -> (Span, Seq<char>) {
    (f.span, f.replacement@)
}

impl Diagnostic {
    pub open spec fn report(&self) -> Report {
        (self.span, self.message@, self.fixes@.map_values(|f: Fix| fix_view(f)))
    }
}

/// Static description of a rule: its id, default severity, the node kinds it visits, the one
/// language it is pinned to (if any) and whether it reads morphology.
#[derive(Clone, Debug)]
pub struct RuleMeta {
    pub id: String,
    pub default_severity: Severity,
    pub node_kinds: Vec<NodeKind>,
    pub lang: Option<Lang>,
    pub morphology: bool,
}

impl RuleMeta {
    /// A language-neutral, morphology-free rule.
    pub fn new(id: &str, default_severity: Severity, node_kinds: Vec<NodeKind>) -> (m: RuleMeta)
        ensures
            m.id@ == id@,
            m.default_severity == default_severity,
            m.node_kinds@ == node_kinds@,
            m.lang.is_none(),
            !m.morphology,
    {
        RuleMeta {
            id: id.to_owned(),
            default_severity,
            node_kinds,
            lang: None,
            morphology: false,
        }
    }

    /// Pin the rule to `lang`: it then runs only on documents in that language.
    pub fn for_language(self, lang: Lang) -> (m: RuleMeta)
        ensures
            m.id@ == self.id@,
            m.default_severity == self.default_severity,
            m.node_kinds@ == self.node_kinds@,
            m.lang == Some(lang),
            m.morphology == self.morphology,
    {
        RuleMeta { lang: Some(lang), ..self }
    }

    /// Mark the rule as reading the morphology of `lang` (which also pins it to `lang`).
    pub fn with_morphology(self, lang: Lang) -> (m: RuleMeta)
        ensures
            m.id@ == self.id@,
            m.default_severity == self.default_severity,
            m.node_kinds@ == self.node_kinds@,
            m.lang == Some(lang),
            m.morphology,
    {
        RuleMeta { lang: Some(lang), morphology: true, ..self }
    }

    /// Whether the rule runs on a document whose language is `doc_lang` (`None`: untagged).
    pub fn applies_to(&self, doc_lang: Option<Lang>) -> (b: bool)
        ensures
            b == (self.lang.is_none() || doc_lang == self.lang),
    {
        match self.lang {
            None => true,
            Some(l) => match doc_lang {
                Some(d) => d == l,
                None => false,
            },
        }
    }

    pub fn needs_morphology(&self) -> (b: bool)
        ensures
            b == self.morphology,
    {
        self.morphology
    }

    pub fn required_lang(&self) -> (l: Option<Lang>)
        ensures
            l == self.lang,
    {
        self.lang
    }
}

/// A document node as a rule sees it: its kind, its absolute byte span, its text, its child
/// nodes in document order, and its morphological tokens when a morphology table is available.
#[derive(Debug)]
pub struct NodeRef {
    pub kind: NodeKind,
    pub span: Span,
    pub text: String,
    pub children: Vec<NodeRef>,
    pub tokens: Option<Vec<Token>>,
}

impl NodeRef {
    /// A leaf node without morphology.
    pub fn new(kind: NodeKind, span: Span, text: String) -> (n: NodeRef)
        ensures
            n.kind == kind,
            n.span == span,
            n.text@ == text@,
            n.children@.len() == 0,
            n.tokens.is_none(),
    {
        NodeRef { kind, span, text, children: Vec::new(), tokens: None }
    }

    /// The node with `children` as its child nodes.
    pub fn with_children(self, children: Vec<NodeRef>) -> (n: NodeRef)
        ensures
            n == (NodeRef { children, ..self }),
    {
        NodeRef { children, ..self }
    }

    /// The node with the morphological tokens `tokens`.
    pub fn with_tokens(self, tokens: Vec<Token>) -> (n: NodeRef)
        ensures
            n == (NodeRef { tokens: Some(tokens), ..self }),
    {
        NodeRef { tokens: Some(tokens), ..self }
    }
}

/// Where a rule reports while it runs: every diagnostic carries the rule's id and severity.
pub struct Context {
    rule_id: String,
    severity: Severity,
    diagnostics: Vec<Diagnostic>,
}

impl Context {
    pub closed spec fn id(&self) -> Seq<char> {
        self.rule_id@
    }

    pub closed spec fn severity(&self) -> Severity {
        self.severity
    }

    /// Every report so far, in order.
    pub closed spec fn reports(&self) -> Seq<Report> {
        self.diagnostics@.map_values(|d: Diagnostic| d.report())
    }

    /// Every diagnostic carries the context's id and severity.
    pub closed spec fn wf(&self) -> bool {
        forall|i: int|
            0 <= i < self.diagnostics@.len() ==> #[trigger] self.diagnostics@[i].rule_id@
                == self.rule_id@ && self.diagnostics@[i].severity == self.severity
    }

    /// A context for `meta`: reports carry its id and default severity.
    pub fn new(meta: &RuleMeta) -> (cx: Context)
        ensures
            cx.id() == meta.id@,
            cx.severity() == meta.default_severity,
            cx.reports() == Seq::<Report>::empty(),
            cx.wf(),
    {
        let cx = Context {
            rule_id: meta.id.clone(),
            severity: meta.default_severity,
            diagnostics: Vec::new(),
        };
        assert(cx.reports() =~= Seq::<Report>::empty());
        cx
    }

    /// Report `message` at `span`.
    pub fn report(&mut self, span: Span, message: String)
        requires
            old(self).wf(),
        ensures
            final(self).wf(),
            final(self).id() == old(self).id(),
            final(self).severity() == old(self).severity(),
            final(self).reports() == old(self).reports().push(plain(span, message@)),
    {
        self.report_with_fixes(span, message, Vec::new());
        assert(Seq::<Fix>::empty().map_values(|f: Fix| fix_view(f)) =~= Seq::<
            (Span, Seq<char>),
        >::empty());
    }

    /// Report `message` at `span` with the given fixes.
    pub fn report_with_fixes(&mut self, span: Span, message: String, fixes: Vec<Fix>)
        requires
            old(self).wf(),
        ensures
            final(self).wf(),
            final(self).id() == old(self).id(),
            final(self).severity() == old(self).severity(),
            final(self).reports() == old(self).reports().push(
                (span, message@, fixes@.map_values(|f: Fix| fix_view(f))),
            ),
    {
        let d = Diagnostic {
            rule_id: self.rule_id.clone(),
            severity: self.severity,
            message,
            span,
            fixes,
        };
        let ghost before = self.diagnostics@;
        self.diagnostics.push(d);
        assert(self.diagnostics@.map_values(|d: Diagnostic| d.report()) =~= before.map_values(
            |d: Diagnostic| d.report(),
        ).push(d.report()));
    }

    /// The diagnostics reported so far.
    pub fn diagnostics(&self) -> (ds: &Vec<Diagnostic>)
        ensures
            ds@.map_values(|d: Diagnostic| d.report()) == self.reports(),
    {
        &self.diagnostics
    }

    /// Take the diagnostics out.
    pub fn into_diagnostics(self) -> (ds: Vec<Diagnostic>)
        ensures
            ds@.map_values(|d: Diagnostic| d.report()) == self.reports(),
    {
        self.diagnostics
    }
}

} // verus!

verus! {

/// A lint rule: static metadata plus a check run on each node of the kinds it visits.
pub trait Rule {
    spec fn spec_meta(&self) -> RuleMeta;

    /// What `check` reports for `node`.
    spec fn spec_check(&self, node: NodeRef) -> Seq<Report>;

    fn meta(&self) -> (m: &RuleMeta)
        ensures
            *m == self.spec_meta(),
    ;

    fn check(&self, node: &NodeRef, cx: &mut Context)
        requires
            old(cx).wf(),
            texts_fit(*node),
        ensures
            final(cx).wf(),
            final(cx).id() == old(cx).id(),
            final(cx).severity() == old(cx).severity(),
            final(cx).reports() == old(cx).reports() + self.spec_check(*node),
    ;
}

} // verus!

verus! {

// ---------------------------------------------------------------------------
// Document walks
// ---------------------------------------------------------------------------

/// The nodes of the subtree at `n` in the order a depth-first stack walk pops them: `n` first,
/// then, unless `stop(n.kind)`, the walks of its children from the last child to the first.
pub open spec fn walk(n: NodeRef, stop: spec_fn(NodeKind) -> bool) -> Seq<NodeRef>
    decreases n,
{
    if stop(n.kind) {
        seq![n]
    } else {
        seq![n] + walk_children(n.children@, stop)
    }
}

/// The walks of `cs`, last child first.
pub open spec fn walk_children(cs: Seq<NodeRef>, stop: spec_fn(NodeKind) -> bool) -> Seq<NodeRef>
    decreases cs,
{
    if cs.len() == 0 {
        seq![]
    } else {
        walk(cs.last(), stop) + walk_children(cs.drop_last(), stop)
    }
}

/// `f` applied to each node of `ns`, concatenated.
pub open spec fn concat_map<T>(ns: Seq<NodeRef>, f: spec_fn(NodeRef) -> Seq<T>) -> Seq<T>
    decreases ns.len(),
{
    if ns.len() == 0 {
        seq![]
    } else {
        concat_map(ns.drop_last(), f) + f(ns.last())
    }
}

pub proof fn lemma_concat_map_add<T>(a: Seq<NodeRef>, b: Seq<NodeRef>, f: spec_fn(NodeRef) -> Seq<T>)
    ensures
        concat_map(a + b, f) == concat_map(a, f) + concat_map(b, f),
    decreases b.len(),
{
    if b.len() == 0 {
        assert(a + b =~= a);
        assert(concat_map(a, f) + Seq::<T>::empty() =~= concat_map(a, f));
    } else {
        assert((a + b).drop_last() =~= a + b.drop_last());
        lemma_concat_map_add(a, b.drop_last(), f);
        assert(concat_map(a, f) + concat_map(b.drop_last(), f) + f(b.last()) =~= concat_map(a, f) + (concat_map(
            b.drop_last(),
            f,
        ) + f(b.last())));
    }
}

pub proof fn lemma_concat_map_single<T>(n: NodeRef, f: spec_fn(NodeRef) -> Seq<T>)
    ensures
        concat_map(seq![n], f) == f(n),
{
    assert(seq![n].drop_last() =~= Seq::<NodeRef>::empty());
    assert(concat_map(Seq::<NodeRef>::empty(), f) =~= Seq::<T>::empty());
    assert(seq![n].last() == n);
    assert(Seq::<T>::empty() + f(n) =~= f(n));
}

} // verus!

verus! {

/// Every text of the subtree at `n` has byte offsets that fit in a `usize`.
pub open spec fn texts_fit(n: NodeRef) -> bool
    decreases n,
{
    crate::text::fits_usize(n.text@) && children_fit(n.children@)
}

/// Every subtree of `cs` satisfies [`texts_fit`].
pub open spec fn children_fit(cs: Seq<NodeRef>) -> bool
    decreases cs,
{
    cs.len() == 0 || (texts_fit(cs.last()) && children_fit(cs.drop_last()))
}

pub proof fn lemma_children_fit(cs: Seq<NodeRef>, i: int)
    requires
        children_fit(cs),
        0 <= i < cs.len(),
    ensures
        texts_fit(cs[i]),
    decreases cs.len(),
{
    if i < cs.len() - 1 {
        assert(cs.drop_last()[i] == cs[i]);
        lemma_children_fit(cs.drop_last(), i);
    }
}

} // verus!

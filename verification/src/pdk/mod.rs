//! The plugin development kit: the request a lint plugin receives, the response it returns,
//! and the text helpers plugins share.
pub mod request;
pub mod text;
pub mod types;

pub use request::{
    extract_node_text, get_depth, get_location, get_node_type, get_parent_type, get_text,
    is_in_blockquote, is_in_code_block, is_in_heading, is_in_link, is_in_list, is_node_type,
    node_range_ok, range_on_boundaries,
};
pub use text::{find_matches, get_sentences, Sentence, TextMatch};
pub use types::{
    AstNode, Capability, Diagnostic, Fix, KnownLanguage, LintContext, LintFlags, LintHelpers,
    LintLocation, LintRequest, LintResponse, Position, RuleManifest, Severity, Span, TextContext,
    TextSentence, TextSpan, Token,
};

//! The structural scan of a Markdown text: its top-level blocks, each a
//! heading (with depth and rendered inline text), a link-reference
//! definition, or another block, with the block's character span in the
//! source text.

use vstd::prelude::*;
use markdown::mdast::Node;

verus! {

/// One top-level block of a Markdown document. `span` holds the block's
/// start and end offsets in the source text, counted in characters.
pub enum MdBlock {
    Heading { depth: u8, text: String, span: Option<(usize, usize)> },
    Definition,
    Other { span: Option<(usize, usize)> },
}

/// The plain shape of a block: a kind code (0 heading, 1 definition, 2
/// other), the heading depth, the heading text, and the span.
pub open spec fn block_repr(b: MdBlock) -> (u8, u8, Seq<char>, Option<(usize, usize)>) {
    match b {
        MdBlock::Heading { depth, text, span } => (0u8, depth, text@, span),
        MdBlock::Definition => (1u8, 0u8, Seq::<char>::empty(), None),
        MdBlock::Other { span } => (2u8, 0u8, Seq::<char>::empty(), span),
    }
}

/// What the Markdown parser yields for a text: `Err` with the parser's
/// message when it rejects the text, `Ok(None)` when the parse yields no
/// document root, and otherwise the document's top-level blocks in order.
/// The result depends on the text alone.
pub uninterp spec fn md_scan(text: Seq<char>) -> Result<
    Option<Seq<(u8, u8, Seq<char>, Option<(usize, usize)>)>>,
    Seq<char>,
>;

/// Relies on `markdown::to_mdast` with default parse options for the block
/// structure, on `markdown::mdast::Node::to_string` for headings' inline
/// text, and on `Node::position` for block offsets, which are converted from
/// bytes to characters against the source text.
#[verifier::external_body]
pub(crate) fn scan_markdown(text: &str) -> (r: Result<Option<Vec<MdBlock>>, String>)
    ensures
        match r {
            Ok(Some(blocks)) => md_scan(text@) matches Ok(Some(s)) && blocks@.map_values(
                |b: MdBlock| block_repr(b),
            ) == s,
            Ok(None) => md_scan(text@) matches Ok(o) && o is None,
            Err(e) => md_scan(text@) matches Err(m) && m == e@,
        },
{
    // The markdown parser gives byte offsets; `at` recounts them in characters.
    let at = |b: usize| text[..b].chars().count();
    let sp = |n| Node::position(n).map(|p| (at(p.start.offset), at(p.end.offset)));
    match markdown::to_mdast(text, &markdown::ParseOptions::default()) {
        Err(m) => Err(m.to_string()),
        Ok(Node::Root(root)) => Ok(Some(root.children.iter().map(|n| match n {
            Node::Heading(h) => MdBlock::Heading { depth: h.depth, text: n.to_string(), span: sp(n) },
            Node::Definition(_) => MdBlock::Definition,
            _ => MdBlock::Other { span: sp(n) },
        }).collect())),
        Ok(_) => Ok(None),
    }
}

} // verus!

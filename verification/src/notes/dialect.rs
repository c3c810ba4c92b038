//! The Markdown flavour notes are written in.

use vstd::prelude::*;

verus! {

/// Markdown flavour of the notes. It decides the cheat sheet handed to the
/// model and how an exporter renders.
#[derive(Debug, Clone, Copy, PartialEq, Eq)]
pub enum MarkdownDialect {
    /// Notion-flavoured Markdown: callouts, details, tables, block colours.
    /// Renders in Notion and degrades gracefully elsewhere.
    NotionEnhanced,
    /// CommonMark only, for Obsidian, GitHub and plain viewers.
    Basic,
}

impl Default for MarkdownDialect {
    /// Notion-flavoured Markdown.
    fn default() -> (r: Self)
        ensures
            r == MarkdownDialect::NotionEnhanced,
    {
        MarkdownDialect::NotionEnhanced
    }
}

pub const CHEAT_SHEET_NOTION_ENHANCED: &'static str = "You are emitting Notion-flavored markdown. Allowed constructs:
- CommonMark: headings (#, ##, ###), lists (-, 1.), tables, fenced code blocks, blockquotes, links, images.
- <callout icon=\"🎯\">…</callout> for highlighted notes.
- <details><summary>Title</summary>…</details> for collapsible blocks.
- <table>…</table> with explicit <tr>/<td> for rich tables.
- {color=\"red\"} after a paragraph or heading for block colors.
- Inline mentions: @user, @date.
NEVER emit raw HTML beyond the listed tags. NEVER nest callouts.
";

pub const CHEAT_SHEET_BASIC: &'static str = "You are emitting strict CommonMark. Allowed constructs:
- Headings (#, ##, ###).
- Unordered lists (-) and ordered lists (1.).
- Pipe tables.
- Fenced code blocks with language tags.
- Blockquotes (>).
- Links and image embeds.
NEVER emit HTML tags, callouts, color attributes, or Notion-specific extensions.
This is for Obsidian / GitHub / vanilla CommonMark viewers.
";

/// The cheat sheet of a dialect.
pub open spec fn cheat_sheet_of(d: MarkdownDialect) -> Seq<char> {
    match d {
        MarkdownDialect::NotionEnhanced => CHEAT_SHEET_NOTION_ENHANCED@,
        MarkdownDialect::Basic => CHEAT_SHEET_BASIC@,
    }
}

impl MarkdownDialect {
    /// A compact reference of the syntax the dialect allows, handed to the
    /// model in every prompt that asks for Markdown.
    pub fn cheat_sheet(self) -> (r: &'static str)
        ensures
            r@ == cheat_sheet_of(self),
    {
        match self {
            MarkdownDialect::NotionEnhanced => CHEAT_SHEET_NOTION_ENHANCED,
            MarkdownDialect::Basic => CHEAT_SHEET_BASIC,
        }
    }
}

} // verus!

//! Rendering of markdown to HTML, as comrak does it.

use vstd::prelude::*;

verus! {

/// The switches of the markdown renderer that this crate sets. Every
/// other option of the renderer keeps its default.
#[derive(Clone, Copy, Debug)]
pub struct RenderOptions {
    /// Turn bare addresses into links.
    pub autolink: bool,
    /// Escape the raw HTML tags that GitHub disallows.
    pub tagfilter: bool,
    /// Render `~text~` as deleted text.
    pub strikethrough: bool,
    /// Render pipe tables.
    pub table: bool,
    /// Render footnotes.
    pub footnotes: bool,
    /// Pass raw HTML and any link target through unchanged.
    pub raw_html: bool,
    /// Write the language of a fenced code block as `<pre lang="..">`.
    pub github_pre_lang: bool,
}

/// The HTML that comrak renders for the markdown `text` under `options`.
pub uninterp spec fn markdown_html(text: Seq<char>, options: RenderOptions) -> Seq<char>;

/// Renders markdown to HTML.
///
/// Calls `comrak::markdown_to_html` with comrak's default options but for
/// the seven switches of `options`. Nothing is proved of it: the contract
/// only names what comrak returns, as a function of the text and the
/// switches.
#[verifier::external_body]
pub(crate) fn render_markdown(text: &str, options: &RenderOptions) -> (html: String)
    ensures
        html@ == markdown_html(text@, *options),
{
    let mut settings = comrak::ComrakOptions::default();
    settings.extension.autolink = options.autolink;
    settings.extension.tagfilter = options.tagfilter;
    settings.extension.strikethrough = options.strikethrough;
    settings.extension.table = options.table;
    settings.extension.footnotes = options.footnotes;
    settings.render.unsafe_ = options.raw_html;
    settings.render.github_pre_lang = options.github_pre_lang;
    comrak::markdown_to_html(text, &settings)
}

} // verus!

use vstd::prelude::*;

use html2text::render::TrivialDecorator;

verus! {

/// What `html2text::from_read_with_decorator` renders for an HTML document
/// with unbounded width and the trivial (undecorated) text decorator, or
/// `None` where it reports an error.
pub uninterp spec fn html_text_rendering(html: Seq<char>) -> Option<Seq<char>>;

/// Renders `html` as text through `html2text::from_read_with_decorator`, with
/// width `usize::MAX` and `TrivialDecorator`. The contract claims only that the
/// rendering is a function of the document's characters (`html_text_rendering`).
#[verifier::external_body]
fn render_html_text(html: &str) -> (r: Option<String>)
    ensures
        r is None <==> html_text_rendering(html@) is None,
        r matches Some(t) ==> html_text_rendering(html@) == Some(t@),
{
    html2text::from_read_with_decorator(html.as_bytes(), usize::MAX, TrivialDecorator::new()).ok()
}

/// The plain text of an HTML document, without Markdown-style markers; empty
/// where the renderer fails.
pub open spec fn html_plain_text(html: Seq<char>) -> Seq<char> {
    match html_text_rendering(html) {
        Some(t) => t,
        None => Seq::<char>::empty(),
    }
}

/// The plain text of an HTML document.
pub fn html_to_plain_text(html: &str) -> (text: String)
    ensures
        text@ == html_plain_text(html@),
{
    match render_html_text(html) {
        Some(t) => t,
        None => String::new(),
    }
}

} // verus!

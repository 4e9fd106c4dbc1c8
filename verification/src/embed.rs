//! A rendered document made ready for a web page: with a style that follows
//! the colour scheme of the page, and as a link that holds the document.

use crate::grammar::symbols_of;
use vstd::prelude::*;
use vstd::string::StringExecFns;

verus! {

/// The `base64` crate's encoding of the bytes of a text in the standard
/// alphabet, without padding.
pub uninterp spec fn base64_unpadded(text: Seq<char>) -> Seq<char>;

/// The style that draws the path black on a light page and white on a dark
/// one.
pub open spec fn scheme_style() -> Seq<char> {
    "<style>@media (prefers-color-scheme: light) { path { stroke: black; } }@media (prefers-color-scheme: dark) { path { stroke: white; } }</style>"@
}

/// What stands before the encoded document in a link.
pub open spec fn link_head() -> Seq<char> {
    "data:image/svg+xml;base64,"@
}

/// Whether the character at index `i` belongs to a line end: it is a line
/// feed, or a carriage return with a line feed right behind it.
pub open spec fn ends_line(text: Seq<char>, i: int) -> bool {
    text[i] == '\n' || (text[i] == '\r' && i + 1 < text.len() && text[i + 1] == '\n')
}

/// The number of line feeds among the first `n` characters.
pub open spec fn feeds(text: Seq<char>, n: int) -> int
    decreases n,
{
    if n <= 0 {
        0
    } else {
        feeds(text, n - 1) + if text[n - 1] == '\n' {
            1int
        } else {
            0int
        }
    }
}

/// The first `n` characters without their line ends, the style put in behind
/// the second line.
pub open spec fn styled_upto(text: Seq<char>, n: int) -> Seq<char>
    decreases n,
{
    if n <= 0 {
        Seq::empty()
    } else {
        styled_upto(text, n - 1) + (if ends_line(text, n - 1) {
            Seq::empty()
        } else {
            seq![text[n - 1]]
        }) + (if text[n - 1] == '\n' && feeds(text, n) == 2 {
            scheme_style()
        } else {
            Seq::empty()
        })
    }
}

/// The lines of the document one behind the other without their line ends,
/// with the style behind the second line, or behind the last where there are
/// fewer than two line feeds.
pub open spec fn styled(text: Seq<char>) -> Seq<char> {
    styled_upto(text, text.len() as int) + if feeds(text, text.len() as int) < 2 {
        scheme_style()
    } else {
        Seq::empty()
    }
}

/// The number of line feeds in a prefix is at most its length.
pub proof fn lemma_feeds_bounded(text: Seq<char>, n: int)
    requires
        0 <= n,
    ensures
        0 <= feeds(text, n) <= n,
    decreases n,
{
    if n > 0 {
        lemma_feeds_bounded(text, n - 1);
    }
}

/// Puts a style into a rendered document that lets the colour of the path
/// follow the colour scheme of the page: behind the second line, which in a
/// rendered document is the opening tag of the root element. The lines come
/// back one behind the other, without their line ends.
pub fn lsys_svg_to_color_scheme_aware_svg(svg: &str) -> (page: String)
    ensures
        page@ == styled(svg@),
{
    let chars = symbols_of(svg);
    let mut page = String::new();
    let mut seen: usize = 0;
    let mut i: usize = 0;
    while i < chars.len()
        invariant
            i <= chars.len(),
            seen == feeds(chars@, i as int),
            page@ == styled_upto(chars@, i as int),
        decreases chars.len() - i,
    {
        proof {
            lemma_feeds_bounded(chars@, i as int);
        }
        let c = chars[i];
        if c == '\n' {
            seen = seen + 1;
            if seen == 2 {
                page.append(
                    "<style>@media (prefers-color-scheme: light) { path { stroke: black; } }@media (prefers-color-scheme: dark) { path { stroke: white; } }</style>",
                );
            }
        } else if !(c == '\r' && i + 1 < chars.len() && chars[i + 1] == '\n') {
            page.push(c);
        }
        i = i + 1;
    }
    if seen < 2 {
        page.append(
            "<style>@media (prefers-color-scheme: light) { path { stroke: black; } }@media (prefers-color-scheme: dark) { path { stroke: white; } }</style>",
        );
    }
    page
}

/// A link that holds the document itself, for saving it from a page.
pub fn download_link(svg: &str) -> (link: String)
    ensures
        link@ == link_head() + base64_unpadded(svg@),
{
    let mut link = String::from_str("data:image/svg+xml;base64,");
    link.append(encode_outside(svg).as_str());
    link
}

/// Calls `base64::Engine::encode` on the engine
/// `base64::engine::general_purpose::STANDARD_NO_PAD`. The contract names the
/// result: it is the crate's encoding of the bytes of the text.
#[verifier::external_body]
fn encode_outside(text: &str) -> (encoded: String)
    ensures
        encoded@ == base64_unpadded(text@),
{
    base64::Engine::encode(&base64::engine::general_purpose::STANDARD_NO_PAD, text)
}

} // verus!

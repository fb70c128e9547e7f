//! Markdown bodies: a response whose body is Markdown is turned into one
//! whose body is HTML, with the addresses in its text made into links.

use crate::text::{contains_bytes, occurs};
use pulldown_cmark::{html, Event, Options, Parser};
use vstd::prelude::*;
use vstd::string::*;
use vstd::utf8::*;

verus! {

/// What `autolink::auto_link` makes of a text, without extra attributes:
/// the text with its addresses wrapped in links.
pub uninterp spec fn auto_linked(text: Seq<char>) -> Seq<char>;

/// The HTML that `pulldown_cmark` renders for a Markdown source, with
/// tables, footnotes, strike-through and task lists, and with each run of
/// text replaced as `link_text` says.
pub uninterp spec fn markdown_rendered(source: Seq<char>) -> Seq<char>;

/// `autolink::auto_link` without extra attributes. Not verified: the result
/// is a function of the text, and the contract only gives it a name.
#[verifier::external_body]
fn auto_link(text: &str) -> (linked: String)
    ensures
        linked@ == auto_linked(text@),
{
    autolink::auto_link(text, &[])
}

/// Whether a text holds the start of a web address.
pub open spec fn has_address(text: Seq<u8>) -> bool {
    occurs(text, "http://".spec_bytes()) || occurs(text, "https://".spec_bytes())
}

/// What stands for a run of text once its addresses were linked: the linked
/// form as HTML, if linking changed the length of the text, and nothing if
/// the text stays as it is.
pub open spec fn chosen_link(text: Seq<char>, linked: Seq<char>) -> Option<Seq<char>> {
    if encode_utf8(linked).len() == encode_utf8(text).len() {
        None
    } else {
        Some(linked)
    }
}

/// Decides between a run of text and its linked form.
pub fn choose_link(text: &str, linked: String) -> (html: Option<String>)
    ensures
        match chosen_link(text@, linked@) {
            Some(l) => html matches Some(h) && h@ == l,
            None => html is None,
        },
{
    if linked.as_str().as_bytes().len() == text.as_bytes().len() {
        None
    } else {
        Some(linked)
    }
}

/// The HTML that replaces a run of text, if its addresses are to be links:
/// none for a text without `http://` or `https://`.
pub fn link_text(text: &str) -> (html: Option<String>)
    ensures
        match html {
            Some(h) => has_address(text.spec_bytes()) && chosen_link(text@, auto_linked(text@))
                == Some(h@),
            None => !has_address(text.spec_bytes()) || chosen_link(text@, auto_linked(text@))
                is None,
        },
{
    let bytes = text.as_bytes();
    if contains_bytes(bytes, "http://".as_bytes()) || contains_bytes(bytes, "https://".as_bytes()) {
        choose_link(text, auto_link(text))
    } else {
        None
    }
}

/// `pulldown_cmark::Parser::new_ext` and `pulldown_cmark::html::push_html`:
/// the HTML of a Markdown source. Each run of text goes through
/// `link_text` on its way. Not verified: the contract only gives the result
/// a name.
#[verifier::external_body]
pub(crate) fn markdown_html(source: &str) -> (page: String)
    ensures
        page@ == markdown_rendered(source@),
{
    let options = Options::ENABLE_TABLES | Options::ENABLE_FOOTNOTES
        | Options::ENABLE_STRIKETHROUGH | Options::ENABLE_TASKLISTS;
    let events = Parser::new_ext(source, options).map(|event| match event {
        Event::Text(text) => match link_text(&text) {
            Some(linked) => Event::Html(linked.into()),
            None => Event::Text(text),
        },
        other => other,
    });
    let mut page = String::new();
    html::push_html(&mut page, events);
    page
}

} // verus!

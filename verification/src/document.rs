//! What is read of the HTML of a report.

use crate::text::{chars_of, join, joined, texts};
use vstd::prelude::*;
use vstd::utf8::encode_utf8;

verus! {

/// All spans.
pub const SPAN: &'static str = "span";

/// All spans and paragraphs.
pub const SPAN_OR_PARAGRAPH: &'static str = "span, p";

/// All tables.
pub const TABLE: &'static str = "table";

/// All headings of the second level and paragraphs.
pub const HEADING_OR_PARAGRAPH: &'static str = "h2, p";

/// How often `c` occurs in `s`.
pub open spec fn occurrences(s: Seq<char>, c: char) -> nat
    decreases s.len(),
{
    if s.len() == 0 {
        0
    } else {
        occurrences(s.drop_last(), c) + if s.last() == c {
            1nat
        } else {
            0nat
        }
    }
}

/// The bytes that the texts of a page may take when it is parsed. The parser makes three bytes of
/// a NUL, and no character reference, which starts with `&`, becomes longer by more than one byte.
pub open spec fn parsed_bytes(html: Seq<char>) -> nat {
    encode_utf8(html).len() + 2 * occurrences(html, '\0') + occurrences(html, '&')
}

/// Whether the texts of a page fit into the buffers of the parser, which grow to 2^31 bytes.
pub open spec fn parsable(html: Seq<char>) -> bool {
    parsed_bytes(html) <= 0x8000_0000
}

/// The selector is one of this module, which are all well-formed.
pub open spec fn known_selector(selector: Seq<char>) -> bool {
    ||| selector == SPAN@
    ||| selector == SPAN_OR_PARAGRAPH@
    ||| selector == TABLE@
    ||| selector == HEADING_OR_PARAGRAPH@
}

/// An element of a report: its name and the texts below it.
pub struct Element {
    pub name: String,
    pub texts: Vec<String>,
}

/// The model of an [`Element`].
#[verifier::ext_equal]
pub struct ElementModel {
    pub name: Seq<char>,
    pub texts: Seq<Seq<char>>,
}

impl View for Element {
    type V = ElementModel;

    open spec fn view(&self) -> ElementModel {
        ElementModel { name: self.name@, texts: texts(self.texts@) }
    }
}

/// The models of a list of elements.
pub open spec fn all_elements(list: Seq<Element>) -> Seq<ElementModel> {
    Seq::new(list.len(), |i: int| list[i]@)
}

/// The models of several lists of elements.
pub open spec fn all_lists(lists: Seq<Vec<Element>>) -> Seq<Seq<ElementModel>> {
    Seq::new(lists.len(), |i: int| all_elements(lists[i]@))
}

/// The models of a list of elements, where there is one.
pub open spec fn optional_elements(list: Option<Vec<Element>>) -> Option<Seq<ElementModel>> {
    match list {
        Some(elements) => Some(all_elements(elements@)),
        None => None,
    }
}

impl ElementModel {
    /// The texts of the element, with a space between each two.
    pub open spec fn text(self) -> Seq<char> {
        joined(self.texts, " "@)
    }
}

impl Element {
    /// The texts of the element, with a space between each two.
    pub fn text(&self) -> (r: String)
        ensures
            r@ == self@.text(),
    {
        join(&self.texts, " ")
    }
}

/// What is read of a report.
pub struct Document {
    /// The spans.
    pub spans: Vec<Element>,
    /// The spans and paragraphs.
    pub spans_and_paragraphs: Vec<Element>,
    /// The spans of the first table, if there is a table.
    pub first_table_spans: Option<Vec<Element>>,
    /// The headings of the second level and the paragraphs.
    pub headings_and_paragraphs: Vec<Element>,
}

/// The model of a [`Document`].
#[verifier::ext_equal]
pub struct DocumentModel {
    pub spans: Seq<ElementModel>,
    pub spans_and_paragraphs: Seq<ElementModel>,
    pub first_table_spans: Option<Seq<ElementModel>>,
    pub headings_and_paragraphs: Seq<ElementModel>,
}

impl View for Document {
    type V = DocumentModel;

    open spec fn view(&self) -> DocumentModel {
        DocumentModel {
            spans: all_elements(self.spans@),
            spans_and_paragraphs: all_elements(self.spans_and_paragraphs@),
            first_table_spans: optional_elements(self.first_table_spans),
            headings_and_paragraphs: all_elements(self.headings_and_paragraphs@),
        }
    }
}

/// The elements of an HTML document that a selector selects.
pub uninterp spec fn selected(html: Seq<char>, selector: Seq<char>) -> Seq<ElementModel>;

/// The elements that the selector `inner` selects in each of the elements of an HTML document
/// that the selector `outer` selects.
pub uninterp spec fn selected_within(
    html: Seq<char>,
    outer: Seq<char>,
    inner: Seq<char>,
) -> Seq<Seq<ElementModel>>;

/// The first of the lists, if there is one.
pub open spec fn first_list(lists: Seq<Seq<ElementModel>>) -> Option<Seq<ElementModel>> {
    if lists.len() > 0 {
        Some(lists[0])
    } else {
        None
    }
}

/// What is read of an HTML document.
pub open spec fn document_of(html: Seq<char>) -> DocumentModel {
    DocumentModel {
        spans: selected(html, SPAN@),
        spans_and_paragraphs: selected(html, SPAN_OR_PARAGRAPH@),
        first_table_spans: first_list(selected_within(html, TABLE@, SPAN@)),
        headings_and_paragraphs: selected(html, HEADING_OR_PARAGRAPH@),
    }
}

/// The elements that a selector selects in an HTML document: `scraper::Html::select`, after
/// `scraper::Html::parse_document` and `scraper::Selector::parse`, which accepts every
/// selector of this module.
///
/// They are a function of the document and the selector. Which ones they are, in what
/// order, is not said. On pages that do not fit its buffers the parser may give up.
#[verifier::external_body]
fn select_elements(html: &str, selector: &str) -> (r: Vec<Element>)
    requires
        known_selector(selector@),
        parsable(html@),
    ensures
        all_elements(r@) == selected(html@, selector@),
{
    let selector = scraper::Selector::parse(selector).unwrap();
    let document = scraper::Html::parse_document(html);
    let elements = document.select(&selector).map(|e| Element {
        name: e.value().name().to_string(),
        texts: e.text().map(|t| t.to_string()).collect(),
    }).collect();
    elements
}

/// The elements that the selector `inner` selects in each of the elements that the selector
/// `outer` selects in an HTML document: `scraper::ElementRef::select`, after
/// `scraper::Html::parse_document`, `scraper::Html::select` and `scraper::Selector::parse`, which
/// accepts every selector of this module.
///
/// They are a function of the document and the selectors, one list for each element that `outer`
/// selects. Which ones they are, in what order, is not said. On pages that do not fit its buffers
/// the parser may give up.
#[verifier::external_body]
fn select_within(html: &str, outer: &str, inner: &str) -> (r: Vec<Vec<Element>>)
    requires
        known_selector(outer@),
        known_selector(inner@),
        parsable(html@),
    ensures
        all_lists(r@) == selected_within(html@, outer@, inner@),
        r@.len() == selected(html@, outer@).len(),
{
    let outer = scraper::Selector::parse(outer).unwrap();
    let inner = scraper::Selector::parse(inner).unwrap();
    let document = scraper::Html::parse_document(html);
    let lists = document.select(&outer).map(|e| e.select(&inner).map(
        |e| Element {
            name: e.value().name().to_string(),
            texts: e.text().map(|t| t.to_string()).collect(),
        },
    ).collect()).collect();
    lists
}

/// How often `c` occurs in `s`.
fn count(s: &str, c: char) -> (r: usize)
    ensures
        r == occurrences(s@, c),
{
    let chars = chars_of(s);
    let mut r: usize = 0;
    let mut i: usize = 0;
    assert(occurrences(s@.take(0), c) == 0);
    while i < chars.len()
        invariant
            chars@ == s@,
            i <= chars.len(),
            r <= i,
            r == occurrences(s@.take(i as int), c),
        decreases chars.len() - i,
    {
        assert(s@.take(i + 1).drop_last() == s@.take(i as int));
        if chars[i] == c {
            r += 1;
        }
        i += 1;
    }
    assert(s@.take(i as int) == s@);
    r
}

/// Whether the texts of a page fit into the buffers of the parser.
pub fn is_parsable(html: &str) -> (r: bool)
    ensures
        r == parsable(html@),
{
    let bytes = html.as_bytes().len() as u128;
    bytes + 2 * (count(html, '\0') as u128) + count(html, '&') as u128 <= 0x8000_0000
}

impl Document {
    /// Reads an HTML document.
    pub fn parse(html: &str) -> (r: Document)
        requires
            parsable(html@),
        ensures
            r@ == document_of(html@),
    {
        let mut tables = select_within(html, TABLE, SPAN);
        let first_table_spans = if tables.len() > 0 {
            assert(all_lists(tables@)[0] == all_elements(tables@[0]@));
            Some(tables.swap_remove(0))
        } else {
            assert(all_lists(tables@).len() == 0);
            None
        };
        Document {
            spans: select_elements(html, SPAN),
            spans_and_paragraphs: select_elements(html, SPAN_OR_PARAGRAPH),
            first_table_spans,
            headings_and_paragraphs: select_elements(html, HEADING_OR_PARAGRAPH),
        }
    }
}

/// The text of an element is its texts with spaces between them, and what is read of a page are
/// its spans, its spans and paragraphs, the spans of its first table, if there is one, and its
/// headings of the second level and paragraphs.
pub proof fn law_pages_are_read(html: Seq<char>, element: ElementModel)
    ensures
        element.text() == joined(element.texts, " "@),
        document_of(html).spans == selected(html, "span"@),
        document_of(html).spans_and_paragraphs == selected(html, "span, p"@),
        document_of(html).headings_and_paragraphs == selected(html, "h2, p"@),
        selected_within(html, "table"@, "span"@).len() == 0 ==> document_of(html).first_table_spans
            is None,
        selected_within(html, "table"@, "span"@).len() > 0 ==> document_of(html).first_table_spans
            == Some(selected_within(html, "table"@, "span"@)[0]),
{
}

/// A page can be parsed where its bytes, two more for each NUL and one more for each `&`, are no
/// more than 2^31.
pub proof fn law_pages_fit_the_parser(html: Seq<char>, s: Seq<char>, c: char, wanted: char)
    ensures
        parsable(html) <==> encode_utf8(html).len() + 2 * occurrences(html, '\0') + occurrences(
            html,
            '&',
        ) <= 2147483648,
        occurrences(Seq::empty(), wanted) == 0,
        c == wanted ==> occurrences(s.push(c), wanted) == occurrences(s, wanted) + 1,
        c != wanted ==> occurrences(s.push(c), wanted) == occurrences(s, wanted),
{
    assert(s.push(c).drop_last() == s);
}

} // verus!

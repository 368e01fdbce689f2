//! HTML documents: what selectors find in them.
//!
//! A document is kept as its text; a record node is named by the root
//! selector and its index among the elements that the selector matches.
//! Every question is put to the parser on the text, so nothing that the
//! parser built is held across calls.

use vstd::prelude::*;
use crate::lines::{join, joined};
use crate::text::{
    chars_of, last_index_of, opt_view, owned, rfind_char, split_whitespace, string_of_range,
    views, words,
};

verus! {

/// What is read of an element: the pieces of text below it, in document
/// order, and the value of the attribute that was asked for.
#[derive(Clone, Debug)]
pub struct HtmlElement {
    pub texts: Vec<String>,
    pub attr: Option<String>,
}

/// The mathematical value of an `HtmlElement`.
pub struct ElementView {
    pub texts: Seq<Seq<char>>,
    pub attr: Option<Seq<char>>,
}

impl View for HtmlElement {
    type V = ElementView;

    open spec fn view(&self) -> ElementView {
        ElementView { texts: views(self.texts@), attr: opt_view(self.attr) }
    }
}

pub open spec fn element_opt_view(e: Option<HtmlElement>) -> Option<ElementView> {
    match e {
        Some(v) => Some(v@),
        None => None,
    }
}

pub open spec fn text_lists(nodes: Seq<Vec<String>>) -> Seq<Seq<Seq<char>>> {
    nodes.map_values(|n: Vec<String>| views(n@))
}

/// Whether the text is a selector.
pub uninterp spec fn selector_is_valid(selector: Seq<char>) -> bool;

/// The pieces of text of every element of the document that the selector
/// matches, in document order; nothing where the text is no selector.
pub uninterp spec fn html_matches(html: Seq<char>, selector: Seq<char>) -> Seq<Seq<Seq<char>>>;

/// The first element that `selector` matches below the element at index
/// `index` among those that `root` matches; none where there is no such
/// element or one of the two texts is no selector.
pub uninterp spec fn html_first_below(
    html: Seq<char>,
    root: Seq<char>,
    index: nat,
    selector: Seq<char>,
    attr: Option<Seq<char>>,
) -> Option<ElementView>;

/// The first element of the document that `selector` matches; none where
/// there is none or the text is no selector.
pub uninterp spec fn html_first(html: Seq<char>, selector: Seq<char>, attr: Option<Seq<char>>) -> Option<
    ElementView,
>;

/// `scraper::Selector::parse`. The contract claims that whether a text is a
/// selector depends on the text alone.
#[verifier::external_body]
pub(crate) fn selector_parses(selector: &str) -> (r: bool)
    ensures
        r == selector_is_valid(selector@),
{
    scraper::Selector::parse(selector).is_ok()
}

/// `scraper::Html::parse_document` and `Selector::parse`, then
/// `Html::select`, and `ElementRef::text` of every element found. The
/// contract claims that the result depends on the two texts alone.
#[verifier::external_body]
pub(crate) fn html_select(html: &str, selector: &str) -> (r: Vec<Vec<String>>)
    ensures
        text_lists(r@) == html_matches(html@, selector@),
{
    let doc = scraper::Html::parse_document(html);
    let Ok(sel) = scraper::Selector::parse(selector) else {
        return Vec::new();
    };
    doc.select(&sel).map(|el| el.text().map(|t| t.to_string()).collect()).collect()
}

/// `scraper::Html::parse_document` and `Selector::parse`, then
/// `Html::select` for the root, `ElementRef::select` below the element at
/// the index, and `ElementRef::text` and `Element::attr` of the first
/// element found. The contract claims that the result depends on the
/// arguments alone.
#[verifier::external_body]
pub(crate) fn html_select_below(
    html: &str,
    root: &str,
    index: usize,
    selector: &str,
    attr: Option<&str>,
) -> (r: Option<HtmlElement>)
    ensures
        element_opt_view(r) == html_first_below(
            html@,
            root@,
            index as nat,
            selector@,
            match attr {
                Some(a) => Some(a@),
                None => None,
            },
        ),
{
    let doc = scraper::Html::parse_document(html);
    let root = scraper::Selector::parse(root).ok()?;
    let sel = scraper::Selector::parse(selector).ok()?;
    let el = doc.select(&root).nth(index)?.select(&sel).next()?;
    Some(HtmlElement {
        texts: el.text().map(|t| t.to_string()).collect(),
        attr: attr.and_then(|a| el.value().attr(a)).map(|v| v.to_string()),
    })
}

/// `scraper::Html::parse_document` and `Selector::parse`, then
/// `Html::select`, and `ElementRef::text` and `Element::attr` of the first
/// element found. The contract claims that the result depends on the
/// arguments alone.
#[verifier::external_body]
pub(crate) fn html_select_first(html: &str, selector: &str, attr: Option<&str>) -> (r: Option<
    HtmlElement,
>)
    ensures
        element_opt_view(r) == html_first(
            html@,
            selector@,
            match attr {
                Some(a) => Some(a@),
                None => None,
            },
        ),
{
    let doc = scraper::Html::parse_document(html);
    let sel = scraper::Selector::parse(selector).ok()?;
    let el = doc.select(&sel).next()?;
    Some(HtmlElement {
        texts: el.text().map(|t| t.to_string()).collect(),
        attr: attr.and_then(|a| el.value().attr(a)).map(|v| v.to_string()),
    })
}

// ---------------------------------------------------------------------------
// Selector expressions
// ---------------------------------------------------------------------------

/// Whether the text can be the name of an attribute in a selector
/// expression: it is not empty and holds no space.
pub open spec fn is_attr_name(s: Seq<char>) -> bool {
    s.len() > 0 && !s.contains(' ')
}

/// The selector and the attribute of an expression of the form
/// `selector@attr`: the expression is split at its last `@`, unless what
/// follows is no attribute name.
pub open spec fn selector_and_attr(expression: Seq<char>) -> (Seq<char>, Option<Seq<char>>) {
    match last_index_of(expression, '@') {
        Some(i) => if is_attr_name(expression.skip(i + 1)) {
            (expression.take(i), Some(expression.skip(i + 1)))
        } else {
            (expression, None)
        },
        None => (expression, None),
    }
}

/// Splits a selector expression into the selector and the attribute.
pub fn split_selector_attr(expression: &str) -> (r: (String, Option<String>))
    ensures
        (r.0@, opt_view(r.1)) == selector_and_attr(expression@),
{
    let v = chars_of(expression);
    match rfind_char(&v, '@') {
        Some(i) => {
            let mut has_space = false;
            let mut k: usize = i + 1;
            while k < v.len()
                invariant
                    i < k <= v.len(),
                    v@ == expression@,
                    has_space == v@.subrange(i + 1, k as int).contains(' '),
                decreases v.len() - k,
            {
                let ghost before = v@.subrange(i + 1, k as int);
                if v[k] == ' ' {
                    has_space = true;
                }
                k += 1;
                proof {
                    let now = v@.subrange(i + 1, k as int);
                    assert(now =~= before.push(v@[k - 1]));
                    if before.contains(' ') {
                        let j = choose|j: int| 0 <= j < before.len() && before[j] == ' ';
                        assert(now[j] == ' ');
                    }
                    if v@[k - 1] == ' ' {
                        assert(now[now.len() - 1] == ' ');
                    }
                    if now.contains(' ') {
                        let j = choose|j: int| 0 <= j < now.len() && now[j] == ' ';
                        if j < before.len() {
                            assert(before[j] == ' ');
                        }
                    }
                }
            }
            assert(v@.subrange(i + 1, v.len() as int) =~= expression@.skip(i + 1));
            assert(v@.subrange(0, i as int) =~= expression@.take(i as int));
            if i + 1 < v.len() && !has_space {
                (string_of_range(&v, 0, i), Some(string_of_range(&v, i + 1, v.len())))
            } else {
                (owned(expression), None)
            }
        },
        None => (owned(expression), None),
    }
}

/// The text of an element: its pieces with single spaces between them, cut
/// into words, and the words with single spaces between them.
pub open spec fn squeezed_text(texts: Seq<Seq<char>>) -> Seq<char> {
    joined(words(joined(texts, seq![' '])), seq![' '])
}

/// What is taken from an element: the value of the attribute that was asked
/// for, empty where the element has none; or, where none was asked for, the
/// text of the element.
pub open spec fn attr_or_text(element: ElementView, wants_attr: bool) -> Seq<char> {
    if wants_attr {
        match element.attr {
            Some(v) => v,
            None => Seq::<char>::empty(),
        }
    } else {
        squeezed_text(element.texts)
    }
}

/// The pieces with single spaces between them.
pub fn raw_text_of(texts: &Vec<String>) -> (r: String)
    ensures
        r@ == joined(views(texts@), seq![' ']),
{
    proof {
        reveal_strlit(" ");
        assert(" "@ =~= seq![' ']);
    }
    join(texts, " ")
}

/// The value of the attribute asked for, or the text of the element.
pub fn element_attr_or_text(element: &HtmlElement, wants_attr: bool) -> (r: String)
    ensures
        r@ == attr_or_text(element@, wants_attr),
{
    if wants_attr {
        return match &element.attr {
            Some(v) => v.clone(),
            None => String::new(),
        };
    }
    let raw = raw_text_of(&element.texts);
    let pieces = split_whitespace(raw.as_str());
    raw_text_of(&pieces)
}

/// The value that a selector expression finds for a record node: that of
/// the first element that the selector matches below the node, else that of
/// the first element that it matches in the document; none where it matches
/// nothing or is no selector.
pub open spec fn css_value(html: Seq<char>, root: Seq<char>, index: nat, expression: Seq<char>) -> Option<
    Seq<char>,
> {
    let selector = selector_and_attr(expression).0;
    let attr = selector_and_attr(expression).1;
    if !selector_is_valid(selector) {
        None
    } else {
        match html_first_below(html, root, index, selector, attr) {
            Some(el) => Some(attr_or_text(el, attr is Some)),
            None => match html_first(html, selector, attr) {
                Some(el) => Some(attr_or_text(el, attr is Some)),
                None => None,
            },
        }
    }
}

/// Finds the value of a selector expression for a record node.
pub fn extract_css_value(html: &str, root: &str, index: usize, expression: &str) -> (r: Option<
    String,
>)
    ensures
        opt_view(r) == css_value(html@, root@, index as nat, expression@),
{
    let (selector, attr) = split_selector_attr(expression);
    if !selector_parses(selector.as_str()) {
        return None;
    }
    let wanted: Option<&str> = match &attr {
        Some(a) => Some(a.as_str()),
        None => None,
    };
    match html_select_below(html, root, index, selector.as_str(), wanted) {
        Some(el) => Some(element_attr_or_text(&el, attr.is_some())),
        None => match html_select_first(html, selector.as_str(), wanted) {
            Some(el) => Some(element_attr_or_text(&el, attr.is_some())),
            None => None,
        },
    }
}

/// The text of the first element below a record node that one of the
/// selectors matches and that has text, the selectors taken in their order
/// and the first match of each only. A text that is no selector ends the
/// search.
pub open spec fn first_text(
    html: Seq<char>,
    root: Seq<char>,
    index: nat,
    selectors: Seq<Seq<char>>,
) -> Option<Seq<char>>
    decreases selectors.len(),
{
    if selectors.len() == 0 {
        None
    } else if !selector_is_valid(selectors[0]) {
        None
    } else {
        match html_first_below(html, root, index, selectors[0], None) {
            Some(el) if squeezed_text(el.texts).len() > 0 => Some(squeezed_text(el.texts)),
            _ => first_text(html, root, index, selectors.drop_first()),
        }
    }
}

/// Finds the first text below a record node.
pub fn first_html_text(html: &str, root: &str, index: usize, selectors: &Vec<String>) -> (r: Option<
    String,
>)
    ensures
        opt_view(r) == first_text(html@, root@, index as nat, views(selectors@)),
{
    let mut i: usize = 0;
    let ghost all = views(selectors@);
    assert(all.skip(0) =~= all);
    while i < selectors.len()
        invariant
            i <= selectors.len(),
            all == views(selectors@),
            first_text(html@, root@, index as nat, all) == first_text(
                html@,
                root@,
                index as nat,
                all.skip(i as int),
            ),
        decreases selectors.len() - i,
    {
        assert(all.skip(i as int)[0] == selectors@[i as int]@);
        assert(all.skip(i as int).drop_first() =~= all.skip(i + 1));
        if !selector_parses(selectors[i].as_str()) {
            return None;
        }
        match html_select_below(html, root, index, selectors[i].as_str(), None) {
            Some(el) => {
                let text = element_attr_or_text(&el, false);
                if text.as_str().unicode_len() > 0 {
                    return Some(text);
                }
            },
            None => {},
        }
        i += 1;
    }
    None
}

/// The value of an attribute of the first element below a record node that
/// the selector matches.
pub open spec fn first_attr(
    html: Seq<char>,
    root: Seq<char>,
    index: nat,
    selector: Seq<char>,
    attr: Seq<char>,
) -> Option<Seq<char>> {
    if !selector_is_valid(selector) {
        None
    } else {
        match html_first_below(html, root, index, selector, Some(attr)) {
            Some(el) => el.attr,
            None => None,
        }
    }
}

/// Finds the value of an attribute below a record node.
pub fn first_html_attr(html: &str, root: &str, index: usize, selector: &str, attr: &str) -> (r:
    Option<String>)
    ensures
        opt_view(r) == first_attr(html@, root@, index as nat, selector@, attr@),
{
    if !selector_parses(selector) {
        return None;
    }
    match html_select_below(html, root, index, selector, Some(attr)) {
        Some(el) => el.attr,
        None => None,
    }
}

} // verus!

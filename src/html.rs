use vstd::prelude::*;

use ego_tree::iter::{Edge, Traverse};
use scraper::{ElementRef, Html, Node, Selector};

use crate::extract::{
    extract_final, extract_run, lemma_extract_push, outside, text_chunks, DomEvent, TextMachine,
};
use crate::fields::{description_of, encode_fields, fields_json, fields_of, parse_fields};
use crate::listing::{Detail, ListingEntry};
use crate::news_item::{opt_view, NewsKind};
use crate::text::{concat_all, concat_from};

verus! {

#[verifier::external_type_specification]
#[verifier::external_body]
pub struct ExHtml(Html);

#[verifier::external_type_specification]
#[verifier::external_body]
pub struct ExSelector(Selector);

#[verifier::external_type_specification]
#[verifier::external_body]
pub struct ExElementRef<'a>(ElementRef<'a>);

#[verifier::external_type_specification]
#[verifier::external_body]
pub struct ExNode(Node);

#[verifier::external_type_specification]
#[verifier::external_body]
#[verifier::reject_recursive_types(T)]
pub struct ExTraverse<'a, T: 'a>(Traverse<'a, T>);

/// The document that `scraper::Html::parse_document` makes of a text.
pub uninterp spec fn parsed_page(s: Seq<char>) -> Html;

/// The selector group that `scraper::Selector::parse` makes of a text, if it parses.
pub uninterp spec fn parsed_selector(s: Seq<char>) -> Option<Selector>;

/// The elements of a document that a selector matches, as `scraper::Html::select`
/// yields them.
pub uninterp spec fn matches_of(d: Html, s: Selector) -> Seq<ElementRef<'static>>;

/// Relies on `scraper::Html::parse_document`: parses a whole HTML document; the
/// result depends on the text alone.
#[verifier::external_body]
fn parse_document(s: &str) -> (r: Html)
    ensures
        r == parsed_page(s@),
{
    Html::parse_document(s)
}

/// Relies on `scraper::Selector::parse`: parses a CSS selector group; the result
/// depends on the text alone.
#[verifier::external_body]
fn parse_selector(s: &str) -> (r: Option<Selector>)
    ensures
        r == parsed_selector(s@),
{
    Selector::parse(s).ok()
}

/// Relies on `scraper::Html::select`: the elements of the document that match, in
/// document order.
#[verifier::external_body]
fn select_all<'a>(doc: &'a Html, sel: &Selector) -> (r: Vec<ElementRef<'a>>)
    ensures
        r@ == matches_of(*doc, *sel),
{
    doc.select(sel).collect()
}

/// Relies on `scraper::ElementRef::select`: the first descendant that matches.
#[verifier::external_body]
fn select_first<'a>(el: &ElementRef<'a>, sel: &Selector) -> Option<ElementRef<'a>> {
    el.select(sel).next()
}

/// Relies on `ego_tree::NodeRef::first_child` and `scraper::ElementRef::wrap`: the
/// first child node, when it is an element.
#[verifier::external_body]
fn first_child_element<'a>(el: &ElementRef<'a>) -> Option<ElementRef<'a>> {
    el.first_child().and_then(ElementRef::wrap)
}

/// Relies on `scraper::ElementRef::attr`: the value of an attribute.
#[verifier::external_body]
fn attr(el: &ElementRef, name: &str) -> Option<String> {
    el.attr(name).map(|v| v.to_string())
}

/// Relies on `scraper::ElementRef::text`: the descendant text nodes, in order.
#[verifier::external_body]
fn text_nodes(el: &ElementRef) -> Vec<String> {
    el.text().map(|t| t.to_string()).collect()
}

/// The events of a depth-first walk of an element's subtree: for each edge that
/// `ego_tree::iter::Traverse` yields, in order, the event `next_event` makes of it.
pub uninterp spec fn walk_events(el: ElementRef) -> Seq<DomEvent>;

/// The events that a walk has still to yield.
pub uninterp spec fn events_left(w: Traverse<Node>) -> Seq<DomEvent>;

/// Relies on `ego_tree::NodeRef::traverse`: a depth-first walk of the subtree, which
/// yields an opening and a closing edge for each of its nodes.
#[verifier::external_body]
fn traverse<'a>(el: &ElementRef<'a>) -> (r: Traverse<'a, Node>)
    ensures
        events_left(r) == walk_events(*el),
{
    el.traverse()
}

/// Relies on `ego_tree::NodeRef::descendants`: the nodes of the subtree, itself
/// included, counted; the walk has an opening and a closing edge for each.
#[verifier::external_body]
fn node_count(el: &ElementRef) -> (r: usize)
    ensures
        2 * r == walk_events(*el).len(),
{
    el.descendants().count()
}

/// Relies on `Iterator::next` of `ego_tree::iter::Traverse`: the next edge of the walk,
/// told apart by kind (`scraper::Node`), with an element's name and `href` attribute.
#[verifier::external_body]
fn next_event(walk: &mut Traverse<Node>) -> (r: Option<DomEvent>)
    ensures
        events_left(*old(walk)).len() == 0 ==> r is None && events_left(*final(walk)) == events_left(
            *old(walk),
        ),
        events_left(*old(walk)).len() > 0 ==> r == Some(events_left(*old(walk))[0]) && events_left(
            *final(walk),
        ) == events_left(*old(walk)).drop_first(),
{
    walk.next().map(|edge| match edge {
        Edge::Open(node) => match node.value() {
            Node::Text(t) => DomEvent::Text(t.to_string()),
            Node::Element(e) => DomEvent::Element {
                name: e.name().to_string(),
                href: e.attr("href").map(|v| v.to_string()),
            },
            _ => DomEvent::Other,
        },
        Edge::Close(_) => DomEvent::Close,
    })
}

/// The text of an element's subtree, in one pass over its edges: each edge goes
/// straight into the extractor, and only the extractor's state is kept.
pub fn text_of_tree(el: &ElementRef, separator: &str) -> (r: String)
    ensures
        r@ == concat_all(text_chunks(walk_events(*el), separator@)),
{
    let nodes = node_count(el);
    let ghost all = walk_events(*el);
    let mut walk = traverse(el);
    let mut machine = TextMachine::new(separator);
    let mut out = String::new();
    let ghost mut fed: Seq<DomEvent> = Seq::empty();
    assert(fed + events_left(walk) =~= all);
    loop
        invariant
            all == walk_events(*el),
            2 * nodes == all.len(),
            fed + events_left(walk) == all,
            machine.wf(),
            machine.fed() == fed.len(),
            machine.separator() == separator@,
            machine.state() == extract_final(fed, outside(), separator@),
            out@ == concat_all(extract_run(fed, outside(), separator@)),
        decreases events_left(walk).len(),
    {
        let ghost left = events_left(walk);
        match next_event(&mut walk) {
            Some(e) => {
                proof {
                    lemma_extract_push(fed, e, outside(), separator@);
                    assert(fed.push(e) + events_left(walk) =~= fed + left);
                }
                let chunk = machine.feed(&e);
                if let Some(c) = chunk {
                    proof {
                        let before = extract_run(fed, outside(), separator@);
                        assert(before.push(c@).drop_last() =~= before);
                    }
                    out.append(c.as_str());
                }
                proof {
                    fed = fed.push(e);
                }
            },
            None => {
                assert(fed =~= all);
                return out;
            },
        }
    }
}

/// The selectors the listing is read with.
struct ListingSelectors {
    special_notices: Selector,
    news: Selector,
    topics: Selector,
    title: Selector,
    time_script: Selector,
    first_image: Selector,
    second_para: Selector,
}

/// The selector of the list items of a section of the listing.
pub open spec fn section_selector(k: NewsKind) -> Seq<char> {
    match k {
        NewsKind::SpecialNotice => "div.news__content.parts__space--add > ul:nth-of-type(1) > li"@,
        NewsKind::News => "div.news__content.parts__space--add > ul:nth-of-type(2) > li"@,
        NewsKind::Topic => "div.news__content.parts__space--add > ul:nth-of-type(3) > li"@,
    }
}

/// Every selector the listing is read with parses.
pub open spec fn selectors_parse() -> bool {
    &&& parsed_selector(section_selector(NewsKind::SpecialNotice)) is Some
    &&& parsed_selector(section_selector(NewsKind::News)) is Some
    &&& parsed_selector(section_selector(NewsKind::Topic)) is Some
    &&& parsed_selector("p.news__list--title"@) is Some
    &&& parsed_selector("time.news__list--time > script"@) is Some
    &&& parsed_selector("img:nth-of-type(1)"@) is Some
    &&& parsed_selector("p:nth-of-type(2)"@) is Some
}

/// The list items of a section of a listing page.
pub open spec fn section_items(page: Seq<char>, k: NewsKind) -> Seq<ElementRef<'static>> {
    matches_of(parsed_page(page), parsed_selector(section_selector(k))->Some_0)
}

fn listing_selectors() -> (r: Option<ListingSelectors>)
    ensures
        r is Some <==> selectors_parse(),
        r matches Some(s) ==> {
            &&& s.special_notices == parsed_selector(
                section_selector(NewsKind::SpecialNotice),
            )->Some_0
            &&& s.news == parsed_selector(section_selector(NewsKind::News))->Some_0
            &&& s.topics == parsed_selector(section_selector(NewsKind::Topic))->Some_0
        },
{
    let special_notices = parse_selector(
        "div.news__content.parts__space--add > ul:nth-of-type(1) > li",
    );
    let news = parse_selector("div.news__content.parts__space--add > ul:nth-of-type(2) > li");
    let topics = parse_selector("div.news__content.parts__space--add > ul:nth-of-type(3) > li");
    let title = parse_selector("p.news__list--title");
    let time_script = parse_selector("time.news__list--time > script");
    let first_image = parse_selector("img:nth-of-type(1)");
    let second_para = parse_selector("p:nth-of-type(2)");
    match (special_notices, news, topics, title, time_script, first_image, second_para) {
        (Some(a), Some(b), Some(c), Some(d), Some(e), Some(f), Some(g)) => Some(
            ListingSelectors {
                special_notices: a,
                news: b,
                topics: c,
                title: d,
                time_script: e,
                first_image: f,
                second_para: g,
            },
        ),
        _ => None,
    }
}

/// The text of an element: its text nodes, concatenated.
fn text_of(el: &ElementRef) -> String {
    let parts = text_nodes(el);
    concat_from(&parts, 0)
}

/// Entries of a given kind carry only what that kind is built from, and a topic's
/// description is the text the extractor makes of an element's walk, with spaces for
/// line breaks.
pub open spec fn entry_shape(e: ListingEntry) -> bool {
    &&& if e.kind == NewsKind::Topic {
        e.tag_texts is None
    } else {
        e.image is None && e.description is None
    }
    &&& e.description matches Some(d) ==> exists|el: ElementRef<'static>|
        d@ == concat_all(#[trigger] text_chunks(walk_events(el), seq![' ']))
}

fn read_entry(kind: NewsKind, li: &ElementRef, sels: &ListingSelectors) -> (r: ListingEntry)
    ensures
        r.kind == kind,
        entry_shape(r),
{
    let time_script = match select_first(li, &sels.time_script) {
        Some(s) => Some(text_of(&s)),
        None => None,
    };
    let title = select_first(li, &sels.title);
    if kind == NewsKind::Topic {
        let link = match &title {
            Some(t) => first_child_element(t),
            None => None,
        };
        let (href, title_texts) = match &link {
            Some(l) => (attr(l, "href"), Some(text_nodes(l))),
            None => (None, None),
        };
        let image = match select_first(li, &sels.first_image) {
            Some(img) => attr(&img, "src"),
            None => None,
        };
        proof {
            reveal_strlit(" ");
            assert(" "@ =~= seq![' ']);
        }
        let description = match select_first(li, &sels.second_para) {
            Some(p) => Some(text_of_tree(&p, " ")),
            None => None,
        };
        ListingEntry { kind, href, title_texts, tag_texts: None, image, description, time_script }
    } else {
        let href = match first_child_element(li) {
            Some(l) => attr(&l, "href"),
            None => None,
        };
        let (title_texts, tag_texts) = match &title {
            Some(t) => {
                let tag = match first_child_element(t) {
                    Some(c) => Some(text_nodes(&c)),
                    None => None,
                };
                (Some(text_nodes(t)), tag)
            },
            None => (None, None),
        };
        ListingEntry {
            kind,
            href,
            title_texts,
            tag_texts,
            image: None,
            description: None,
            time_script,
        }
    }
}

fn read_section(
    doc: &Html,
    sel: &Selector,
    kind: NewsKind,
    sels: &ListingSelectors,
    out: &mut Vec<ListingEntry>,
)
    ensures
        final(out)@.len() == old(out)@.len() + matches_of(*doc, *sel).len(),
        forall|i: int| 0 <= i < old(out)@.len() ==> final(out)@[i] == old(out)@[i],
        forall|i: int|
            old(out)@.len() <= i < final(out)@.len() ==> (#[trigger] final(out)@[i]).kind == kind
                && entry_shape(final(out)@[i]),
{
    let items = select_all(doc, sel);
    let ghost start = out@.len();
    let mut i: usize = 0;
    while i < items.len()
        invariant
            start == old(out)@.len(),
            items@ == matches_of(*doc, *sel),
            i <= items@.len(),
            out@.len() == start + i,
            forall|j: int| 0 <= j < start ==> out@[j] == old(out)@[j],
            forall|j: int|
                start <= j < out@.len() ==> (#[trigger] out@[j]).kind == kind && entry_shape(
                    out@[j],
                ),
        decreases items.len() - i,
    {
        let e = read_entry(kind, &items[i], sels);
        out.push(e);
        i += 1;
    }
}

/// Reads the entries of a listing page: its news, then its topics, then its special
/// notices, each section in document order.
pub fn read_listing(page: &str) -> (r: Vec<ListingEntry>)
    ensures
        forall|i: int| 0 <= i < r@.len() ==> entry_shape(#[trigger] r@[i]),
        !selectors_parse() ==> r@.len() == 0,
        selectors_parse() ==> {
            let a = section_items(page@, NewsKind::News).len();
            let b = section_items(page@, NewsKind::Topic).len();
            let c = section_items(page@, NewsKind::SpecialNotice).len();
            &&& r@.len() == a + b + c
            &&& forall|i: int|
                0 <= i < r@.len() ==> (#[trigger] r@[i]).kind == (if i < a {
                    NewsKind::News
                } else if i < a + b {
                    NewsKind::Topic
                } else {
                    NewsKind::SpecialNotice
                })
        },
{
    let mut out: Vec<ListingEntry> = Vec::new();
    let sels = match listing_selectors() {
        Some(s) => s,
        None => return out,
    };
    let doc = parse_document(page);
    read_section(&doc, &sels.news, NewsKind::News, &sels, &mut out);
    let ghost n1 = out@.len();
    read_section(&doc, &sels.topics, NewsKind::Topic, &sels, &mut out);
    let ghost n2 = out@.len();
    read_section(&doc, &sels.special_notices, NewsKind::SpecialNotice, &sels, &mut out);
    assert forall|i: int| 0 <= i < out@.len() implies (#[trigger] out@[i]).kind == (if i < n1 {
        NewsKind::News
    } else if i < n2 {
        NewsKind::Topic
    } else {
        NewsKind::SpecialNotice
    }) by {}
    out
}

/// What a detail gives for a text: the description and the encoded fields that
/// `parse_fields` and `encode_fields` make of it.
pub open spec fn detail_matches(d: Detail, text: Seq<char>) -> bool {
    &&& opt_view(d.description) == Some(description_of(text))
    &&& d.fields@ == fields_json(fields_of(text))
}

/// The description and fields of a detail text, as `parse_fields` splits it, with the
/// fields encoded as JSON.
pub fn detail_of_text(text: &str) -> (r: Option<Detail>)
    ensures
        r matches Some(d) && detail_matches(d, text@),
{
    let (description, fields) = parse_fields(text);
    match encode_fields(&fields) {
        Some(json) => Some(Detail { description, fields: json }),
        None => None,
    }
}

/// The selector of a detail page's content.
pub open spec fn detail_selector() -> Seq<char> {
    "div.news__detail__wrapper"@
}

/// Reads the detail page of an entry: the text of its detail wrapper, with line
/// breaks as newlines, as `detail_of_text` reads it. `None` when the page has no such
/// content.
pub fn read_detail(page: &str) -> (r: Option<Detail>)
    ensures
        match parsed_selector(detail_selector()) {
            Some(sel) => {
                let found = matches_of(parsed_page(page@), sel);
                &&& r is Some <==> found.len() > 0
                &&& r matches Some(d) ==> detail_matches(
                    d,
                    concat_all(text_chunks(walk_events(found[0]), seq!['\n'])),
                )
            },
            None => r is None,
        },
{
    let sel = match parse_selector("div.news__detail__wrapper") {
        Some(s) => s,
        None => return None,
    };
    let doc = parse_document(page);
    let found = select_all(&doc, &sel);
    if found.len() == 0 {
        return None;
    }
    proof {
        reveal_strlit("\n");
        assert("\n"@ =~= seq!['\n']);
    }
    let text = text_of_tree(&found[0], "\n");
    detail_of_text(text.as_str())
}

} // verus!

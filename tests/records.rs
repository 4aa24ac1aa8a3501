use lodestone_news::html::{detail_of_text, read_detail, read_listing};
use lodestone_news::listing::{
    absolute_url, build_item, parse_i64, source_id, strip_tag, time_of_script, Detail,
    ListingEntry,
};
use lodestone_news::news_item::{NewNewsItem, NewsKind, SqlError};
use lodestone_news::sync::{contains_id, select_new};

const LISTING: &str = "<html><body><div class=\"news__content parts__space--add\"><ul></ul><ul><li><a href=\"/lodestone/news/detail/abc123def\"><p class=\"news__list--title\"><span>[Maintenance]</span> All Worlds Maintenance </p><time class=\"news__list--time\"><script>document.write(ldst_strftime(1600000000, 'YmdHi'));</script></time></a></li></ul><ul></ul></div></body></html>";

const DETAIL: &str = "<html><body><div class=\"news__detail__wrapper\">We will be performing maintenance.<br>[Date &amp; Time]<br>Sep. 14<br>from 1:00<br><br>[Affected Service]<br>All <a href=\"/worlds\">Worlds</a></div></body></html>";

fn entry(kind: NewsKind) -> ListingEntry {
    ListingEntry {
        kind,
        href: Some("/lodestone/topics/detail/xyz".to_string()),
        title_texts: Some(vec!["[Tag]".to_string(), " Title ".to_string()]),
        tag_texts: Some(vec!["[ Tag ]".to_string()]),
        image: Some("img.png".to_string()),
        description: Some("topic desc".to_string()),
        time_script: Some("x strftime(42, 'a')".to_string()),
    }
}

fn item(id: &str) -> NewNewsItem {
    NewNewsItem {
        title: format!("title {}", id),
        url: String::new(),
        description: None,
        fields: None,
        image: None,
        lodestone_id: id.to_string(),
        kind: NewsKind::News,
        created: 0,
        tag: None,
    }
}

fn ids(items: &[NewNewsItem]) -> Vec<String> {
    items.iter().map(|i| i.lodestone_id.clone()).collect()
}

#[test]
fn source_id_is_last_segment() {
    assert_eq!(source_id("/lodestone/news/detail/abc123"), "abc123");
    assert_eq!(source_id("/lodestone/news/"), "");
    assert_eq!(source_id("plain"), "plain");
}

#[test]
fn absolute_url_prefixes_origin() {
    assert_eq!(absolute_url("/a/b"), "https://na.finalfantasyxiv.com/a/b");
}

#[test]
fn strip_tag_removes_one_character_each_side() {
    assert_eq!(strip_tag("[Maintenance]"), "Maintenance");
    assert_eq!(strip_tag("[]"), "");
    assert_eq!(strip_tag("x"), "");
    assert_eq!(strip_tag("«é»"), "é");
}

#[test]
fn parse_i64_follows_from_str() {
    assert_eq!(parse_i64("1600000000"), Some(1600000000));
    assert_eq!(parse_i64("-12"), Some(-12));
    assert_eq!(parse_i64("+7"), Some(7));
    assert_eq!(parse_i64("9223372036854775807"), Some(i64::MAX));
    assert_eq!(parse_i64("-9223372036854775808"), Some(i64::MIN));
    assert_eq!(parse_i64("9223372036854775808"), None);
    assert_eq!(parse_i64("99999999999999999999999"), None);
    assert_eq!(parse_i64(""), None);
    assert_eq!(parse_i64("-"), None);
    assert_eq!(parse_i64(" 1"), None);
    assert_eq!(parse_i64("1a"), None);
}

#[test]
fn time_script_is_read_between_marker_and_comma() {
    assert_eq!(time_of_script("document.write(ldst_strftime(1600000000, 'YmdHi'));"), Some(1600000000));
    assert_eq!(time_of_script("strftime(12)"), None);
    assert_eq!(time_of_script("strftime(12"), Some(12));
    assert_eq!(time_of_script("no marker, 12"), None);
    assert_eq!(time_of_script("strftime(x1, 2)"), None);
}

#[test]
fn topic_entry_builds_without_detail() {
    let it = build_item(&entry(NewsKind::Topic), None).unwrap();
    assert_eq!(it.title, "[Tag] Title");
    assert_eq!(it.tag, None);
    assert_eq!(it.image, Some("img.png".to_string()));
    assert_eq!(it.description, Some("topic desc".to_string()));
    assert_eq!(it.fields, None);
    assert_eq!(it.lodestone_id, "xyz");
    assert_eq!(it.url, "https://na.finalfantasyxiv.com/lodestone/topics/detail/xyz");
    assert_eq!(it.created, 42);
    assert_eq!(it.kind, NewsKind::Topic);
}

#[test]
fn news_entry_needs_detail_and_uses_tag() {
    let e = entry(NewsKind::SpecialNotice);
    assert!(build_item(&e, None).is_none());
    let d = Detail { description: Some("d".to_string()), fields: "[]".to_string() };
    let it = build_item(&e, Some(&d)).unwrap();
    assert_eq!(it.title, "Title");
    assert_eq!(it.tag, Some("Tag".to_string()));
    assert_eq!(it.image, None);
    assert_eq!(it.description, Some("d".to_string()));
    assert_eq!(it.fields, Some("[]".to_string()));
}

#[test]
fn title_drops_exactly_the_tag_element_text() {
    let mut e = entry(NewsKind::News);
    let d = Detail { description: None, fields: "[]".to_string() };
    e.tag_texts = Some(Vec::new());
    e.title_texts = Some(vec!["Title".to_string()]);
    let it = build_item(&e, Some(&d)).unwrap();
    assert_eq!(it.title, "Title");
    assert_eq!(it.tag, Some(String::new()));
    e.tag_texts = Some(vec!["[Main".to_string(), "tenance]".to_string()]);
    e.title_texts = Some(vec!["[Main".to_string(), "tenance]".to_string(), " Rest ".to_string()]);
    let it = build_item(&e, Some(&d)).unwrap();
    assert_eq!(it.title, "Rest");
    assert_eq!(it.tag, Some("Maintenance".to_string()));
    e.tag_texts = None;
    let it = build_item(&e, Some(&d)).unwrap();
    assert_eq!(it.title, "[Maintenance] Rest");
    assert_eq!(it.tag, None);
}

#[test]
fn listing_title_with_nested_tag_element() {
    let page = "<div class=\"news__content parts__space--add\"><ul></ul><ul><li><a href=\"/n/id9\"><p class=\"news__list--title\"><span>[<b>Important</b>]</span> Notice</p><time class=\"news__list--time\"><script>ldst_strftime(1546300800, 'YMD')</script></time></a></li></ul><ul></ul></div>";
    let entries = read_listing(page);
    assert_eq!(entries.len(), 1);
    let d = Detail { description: None, fields: "[]".to_string() };
    let it = build_item(&entries[0], Some(&d)).unwrap();
    assert_eq!(it.title, "Notice");
    assert_eq!(it.tag, Some("Important".to_string()));
    assert_eq!(it.created, 1546300800);
    let empty = page.replace("[<b>Important</b>]", "");
    let it = build_item(&read_listing(&empty)[0], Some(&d)).unwrap();
    assert_eq!(it.title, "Notice");
    assert_eq!(it.tag, Some(String::new()));
}

#[test]
fn entry_without_link_or_time_is_skipped() {
    let mut e = entry(NewsKind::Topic);
    e.href = None;
    assert!(build_item(&e, None).is_none());
    let mut e = entry(NewsKind::Topic);
    e.time_script = Some("strftime(soon, 1)".to_string());
    assert!(build_item(&e, None).is_none());
    let mut e = entry(NewsKind::Topic);
    e.title_texts = None;
    assert!(build_item(&e, None).is_none());
}

#[test]
fn dedup_inserts_each_new_id_once() {
    let existing = vec!["A".to_string(), "B".to_string()];
    let kept = select_new(vec![item("A"), item("C"), item("C")], &existing);
    assert_eq!(ids(&kept), vec!["C"]);
    assert_eq!(kept[0].title, "title C");
}

#[test]
fn dedup_with_nothing_new_keeps_nothing() {
    let existing = vec!["A".to_string()];
    assert!(select_new(vec![item("A"), item("A")], &existing).is_empty());
    assert!(select_new(Vec::new(), &existing).is_empty());
}

#[test]
fn contains_id_compares_whole_ids() {
    let ids = vec!["abc".to_string()];
    assert!(contains_id(&ids, &"abc".to_string()));
    assert!(!contains_id(&ids, &"ab".to_string()));
}

#[test]
fn listing_and_detail_end_to_end() {
    let entries = read_listing(LISTING);
    assert_eq!(entries.len(), 1);
    assert_eq!(entries[0].kind, NewsKind::News);
    let detail = read_detail(DETAIL).unwrap();
    assert_eq!(detail.description, Some("We will be performing maintenance.".to_string()));
    assert_eq!(
        detail.fields,
        "[{\"name\":\"Date & Time\",\"value\":\"Sep. 14\\nfrom 1:00\"},{\"name\":\"Affected Service\",\"value\":\"All [Worlds](/worlds)\"}]"
    );
    let it = build_item(&entries[0], Some(&detail)).unwrap();
    assert_eq!(it.lodestone_id, "abc123def");
    assert_eq!(it.kind, NewsKind::News);
    assert_eq!(it.tag, Some("Maintenance".to_string()));
    assert_eq!(it.title, "All Worlds Maintenance");
    assert_eq!(it.created, 1600000000);
    assert_eq!(it.url, "https://na.finalfantasyxiv.com/lodestone/news/detail/abc123def");

    let first = select_new(vec![it], &Vec::new());
    assert_eq!(ids(&first), vec!["abc123def"]);
    let stored = ids(&first);
    let again = build_item(&read_listing(LISTING)[0], Some(&read_detail(DETAIL).unwrap())).unwrap();
    assert!(select_new(vec![again], &stored).is_empty());
}

#[test]
fn listing_with_one_news_entry_is_stored_once() {
    let page = "<div class='news__content parts__space--add'><ul></ul><ul><li><a href='/lodestone/news/detail/abc123'><p class='news__list--title'><span>[Maintenance]</span> Patch Notes</p><time class='news__list--time'><script>ldst_strftime(1546300800,'YMD')</script></time></a></li></ul><ul></ul></div>";
    let detail = read_detail("<div class='news__detail__wrapper'>Notes</div>").unwrap();
    let entries = read_listing(page);
    assert_eq!(entries.len(), 1);
    let it = build_item(&entries[0], Some(&detail)).unwrap();
    assert_eq!(it.lodestone_id, "abc123");
    assert_eq!(it.kind, NewsKind::News);
    assert_eq!(it.tag, Some("Maintenance".to_string()));
    assert_eq!(it.title, "Patch Notes");
    assert_eq!(it.url, "https://na.finalfantasyxiv.com/lodestone/news/detail/abc123");
    assert_eq!(it.created, 1546300800);
    assert_eq!(it.description, Some("Notes".to_string()));
    let stored = ids(&select_new(vec![it], &Vec::new()));
    assert_eq!(stored, vec!["abc123"]);
    let again = build_item(&read_listing(page)[0], Some(&detail)).unwrap();
    assert!(select_new(vec![again], &stored).is_empty());
}

#[test]
fn listing_sections_come_news_topics_notices() {
    let page = "<div class=\"news__content parts__space--add\"><ul><li><a href=\"/n/sn1\"></a></li></ul><ul><li><a href=\"/n/news1\"></a></li></ul><ul><li><p class=\"news__list--title\"><a href=\"/t/topic1\">Topic one</a></p><p>second <b>para</b></p><img src=\"/i.png\"></li></ul></div>";
    let entries = read_listing(page);
    let kinds: Vec<NewsKind> = entries.iter().map(|e| e.kind).collect();
    assert_eq!(kinds, vec![NewsKind::News, NewsKind::Topic, NewsKind::SpecialNotice]);
    assert_eq!(entries[0].href, Some("/n/news1".to_string()));
    assert_eq!(entries[1].href, Some("/t/topic1".to_string()));
    assert_eq!(entries[1].title_texts, Some(vec!["Topic one".to_string()]));
    assert_eq!(entries[1].description, Some("second para".to_string()));
    assert_eq!(entries[1].image, Some("/i.png".to_string()));
    assert!(entries[1].time_script.is_none());
}

#[test]
fn page_without_listing_has_no_entries() {
    assert!(read_listing("<p>nothing</p>").is_empty());
    assert!(read_detail("<p>nothing</p>").is_none());
}

#[test]
fn detail_text_splits_into_fields() {
    let d = detail_of_text("Intro\n[K]\nv").unwrap();
    assert_eq!(d.description, Some("Intro".to_string()));
    assert_eq!(d.fields, "[{\"name\":\"K\",\"value\":\"v\"}]");
}

#[test]
fn detail_page_collapses_breaks_and_inlines_links() {
    let page = "<div class=\"news__detail__wrapper\"><p>Top<br><br><br>[Link]<br>see <a href=\"/x\">the <b>site</b></a></p></div>";
    let d = read_detail(page).unwrap();
    assert_eq!(d.description, Some("Top".to_string()));
    assert_eq!(d.fields, "[{\"name\":\"Link\",\"value\":\"see [the site](/x)\"}]");
}

#[test]
fn sql_error_keeps_message() {
    assert_eq!(SqlError::new("unknown news kind").to_string(), "unknown news kind");
}

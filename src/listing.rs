use vstd::prelude::*;

use crate::news_item::{opt_view, NewNewsItem, NewsItemView, NewsKind};
use crate::text::{concat_all, split_on, split_spec, strings_view, trim, trim_spec};

verus! {

/// The origin that the listing's relative links are resolved against.
pub open spec fn origin() -> Seq<char> {
    "https://na.finalfantasyxiv.com"@
}

/// The stable id of an entry: the last `/`-separated segment of its link.
pub open spec fn source_id_spec(href: Seq<char>) -> Seq<char> {
    split_spec(href, '/').last()
}

/// The absolute url of a link of the listing.
pub open spec fn absolute_url_spec(href: Seq<char>) -> Seq<char> {
    origin() + href
}

/// A text without its first and last character (empty when it has fewer than two).
pub open spec fn strip_ends(s: Seq<char>) -> Seq<char> {
    if s.len() >= 2 {
        s.subrange(1, s.len() - 1)
    } else {
        Seq::empty()
    }
}

pub fn source_id(href: &str) -> (r: String)
    ensures
        r@ == source_id_spec(href@),
{
    let parts = split_on(href, '/');
    proof {
        assert(strings_view(parts@).len() == parts@.len());
    }
    let last = parts.len() - 1;
    parts[last].clone()
}

pub fn absolute_url(href: &str) -> (r: String)
    ensures
        r@ == absolute_url_spec(href@),
{
    let mut url = "https://na.finalfantasyxiv.com".to_owned();
    url.append(href);
    url
}

/// Strips the brackets around a tag such as `[Maintenance]`: one character at each end.
pub fn strip_tag(tag: &str) -> (r: String)
    ensures
        r@ == strip_ends(tag@),
{
    let n = tag.unicode_len();
    if n >= 2 {
        tag.substring_char(1, n - 1).to_owned()
    } else {
        String::new()
    }
}

/// `pat` occurs in `s` at `i`.
pub open spec fn occurs_at(s: Seq<char>, pat: Seq<char>, i: int) -> bool {
    0 <= i && i + pat.len() <= s.len() && s.subrange(i, i + pat.len()) == pat
}

/// The first place at or after `i` where `pat` occurs in `s`.
pub open spec fn find_from(s: Seq<char>, pat: Seq<char>, i: int) -> Option<int>
    decreases s.len() + 1 - i,
{
    if i < 0 || i + pat.len() > s.len() {
        None
    } else if occurs_at(s, pat, i) {
        Some(i)
    } else {
        find_from(s, pat, i + 1)
    }
}

proof fn lemma_find_from_occurs(s: Seq<char>, pat: Seq<char>, i: int)
    ensures
        find_from(s, pat, i) matches Some(k) ==> occurs_at(s, pat, k) && i <= k,
    decreases s.len() + 1 - i,
{
    if i >= 0 && i + pat.len() <= s.len() && !occurs_at(s, pat, i) {
        lemma_find_from_occurs(s, pat, i + 1);
    }
}

/// The text that stands for the time in the listing's time script.
pub open spec fn time_marker() -> Seq<char> {
    "strftime("@
}

/// The text between the first `strftime(` of a script and the next comma.
pub open spec fn script_time_text(s: Seq<char>) -> Option<Seq<char>> {
    match find_from(s, time_marker(), 0) {
        Some(i) => Some(split_spec(s.subrange(i + time_marker().len(), s.len() as int), ',')[0]),
        None => None,
    }
}

pub open spec fn is_digit(c: char) -> bool {
    '0' <= c && c <= '9'
}

/// The value of a string of decimal digits.
pub open spec fn digits_value(s: Seq<char>) -> int
    decreases s.len(),
{
    if s.len() == 0 {
        0
    } else {
        digits_value(s.drop_last()) * 10 + (s.last() as int - '0' as int)
    }
}

/// A text without its leading sign, if it has one.
pub open spec fn unsigned_part(s: Seq<char>) -> Seq<char> {
    if s.len() > 0 && (s[0] == '-' || s[0] == '+') {
        s.drop_first()
    } else {
        s
    }
}

pub open spec fn all_digits(s: Seq<char>) -> bool {
    forall|i: int| 0 <= i < s.len() ==> is_digit(#[trigger] s[i])
}

/// The `i64` that a text reads as, as `i64::from_str` reads it: an optional sign,
/// then one or more decimal digits, with a value in range.
pub open spec fn parse_i64_spec(s: Seq<char>) -> Option<i64> {
    let ds = unsigned_part(s);
    if ds.len() == 0 || !all_digits(ds) {
        None
    } else {
        let v = if s[0] == '-' {
            -digits_value(ds)
        } else {
            digits_value(ds)
        };
        if i64::MIN <= v <= i64::MAX {
            Some(v as i64)
        } else {
            None
        }
    }
}

/// The Unix time that a time script states, if it states one.
pub open spec fn script_time(s: Seq<char>) -> Option<i64> {
    match script_time_text(s) {
        Some(t) => parse_i64_spec(t),
        None => None,
    }
}

proof fn lemma_digits_value_nonneg(s: Seq<char>)
    requires
        forall|i: int| 0 <= i < s.len() ==> is_digit(#[trigger] s[i]),
    ensures
        digits_value(s) >= 0,
    decreases s.len(),
{
    if s.len() > 0 {
        assert(is_digit(s[s.len() - 1]));
        lemma_digits_value_nonneg(s.drop_last());
    }
}

/// Reads an `i64` as `i64::from_str` does.
pub fn parse_i64(s: &str) -> (r: Option<i64>)
    ensures
        r == parse_i64_spec(s@),
{
    let cs = crate::text::chars_of(s);
    let n = cs.len();
    let neg = n > 0 && cs[0] == '-';
    let start: usize = if n > 0 && (cs[0] == '-' || cs[0] == '+') {
        1
    } else {
        0
    };
    let ghost ds = cs@.subrange(start as int, n as int);
    proof {
        if start == 1 {
            assert(ds =~= s@.drop_first());
        } else {
            assert(ds =~= s@);
        }
    }
    if start >= n {
        return None;
    }
    let limit: u128 = 9223372036854775808;
    let mut mag: u128 = 0;
    let mut too_big = false;
    let mut i = start;
    while i < n
        invariant
            start <= i <= n,
            n == cs.len(),
            cs@ == s@,
            limit == 9223372036854775808,
            ds == cs@.subrange(start as int, n as int),
            ds == unsigned_part(s@),
            neg == (s@.len() > 0 && s@[0] == '-'),
            forall|j: int| start <= j < i ==> is_digit(#[trigger] cs@[j]),
            !too_big ==> mag == digits_value(cs@.subrange(start as int, i as int)) && mag <= limit,
            too_big ==> digits_value(cs@.subrange(start as int, i as int)) > limit,
        decreases n - i,
    {
        let c = cs[i];
        if !('0' <= c && c <= '9') {
            proof {
                assert(ds[i - start] == c);
                assert(!is_digit(ds[i - start]));
                assert(!all_digits(ds));
            }
            return None;
        }
        let ghost pre = cs@.subrange(start as int, i as int);
        proof {
            assert(cs@.subrange(start as int, i + 1).drop_last() =~= pre);
            assert(cs@.subrange(start as int, i + 1).last() == c);
            lemma_digits_value_nonneg(pre);
        }
        if !too_big {
            let d = (c as u32 - '0' as u32) as u128;
            let next = mag * 10 + d;
            if next > limit {
                too_big = true;
            } else {
                mag = next;
            }
        }
        i += 1;
    }
    proof {
        assert(cs@.subrange(start as int, i as int) =~= ds);
        assert forall|j: int| 0 <= j < ds.len() implies is_digit(#[trigger] ds[j]) by {
            assert(ds[j] == cs@[j + start]);
        }
        assert(all_digits(ds));
    }
    if too_big {
        None
    } else if neg {
        Some((0 - (mag as i128)) as i64)
    } else if mag < limit {
        Some(mag as i64)
    } else {
        None
    }
}

/// Where `pat` first occurs in `s`, as a character index.
fn find_first(s: &Vec<char>, pat: &Vec<char>) -> (r: Option<usize>)
    ensures
        match r {
            Some(i) => find_from(s@, pat@, 0) == Some(i as int),
            None => find_from(s@, pat@, 0) is None,
        },
{
    if pat.len() > s.len() {
        return None;
    }
    let last = s.len() - pat.len();
    let mut i: usize = 0;
    while i <= last
        invariant
            last == s.len() - pat.len(),
            pat.len() <= s.len(),
            find_from(s@, pat@, 0) == find_from(s@, pat@, i as int),
        decreases last + 1 - i,
    {
        let mut j: usize = 0;
        let mut ok = true;
        while j < pat.len()
            invariant
                i <= last,
                last == s.len() - pat.len(),
                j <= pat.len(),
                ok == (forall|k: int| 0 <= k < j ==> s@[i + k] == pat@[k]),
            decreases pat.len() - j,
        {
            if s[i + j] != pat[j] {
                ok = false;
            }
            j += 1;
        }
        proof {
            if ok {
                assert(s@.subrange(i as int, i + pat.len()) =~= pat@);
            } else {
                assert(!occurs_at(s@, pat@, i as int)) by {
                    let k = choose|k: int| 0 <= k < pat.len() && s@[i + k] != pat@[k];
                    if occurs_at(s@, pat@, i as int) {
                        assert(s@.subrange(i as int, i + pat.len())[k] == s@[i + k]);
                    }
                }
            }
        }
        if ok {
            return Some(i);
        }
        i += 1;
    }
    None
}

/// The Unix time stated by a time script: the integer between the first `strftime(`
/// and the next comma.
pub fn time_of_script(script: &str) -> (r: Option<i64>)
    ensures
        r == script_time(script@),
{
    let cs = crate::text::chars_of(script);
    let marker = crate::text::chars_of("strftime(");
    proof {
        lemma_find_from_occurs(cs@, marker@, 0);
    }
    match find_first(&cs, &marker) {
        Some(i) => {
            assert(occurs_at(cs@, marker@, i as int));
            let room: usize = cs.len() - marker.len();
            assert(i <= room);
            let rest = script.substring_char(i + marker.len(), cs.len());
            let parts = split_on(rest, ',');
            proof {
                assert(strings_view(parts@).len() == parts@.len());
                assert(strings_view(parts@)[0] == parts@[0]@);
            }
            parse_i64(parts[0].as_str())
        },
        None => None,
    }
}

/// What the listing shows of one entry, as plain values.
///
/// `href` is the link of the entry; `title_texts` the text nodes of its title (for
/// a topic, those of the title's first element); `tag_texts` the text nodes of the
/// title's first child when that child is an element, which holds the bracketed tag
/// of other entries and is not part of their title; `image` and
/// `description` are read for topics only; `time_script` is the script that states
/// the entry's time.
pub struct ListingEntry {
    pub kind: NewsKind,
    pub href: Option<String>,
    pub title_texts: Option<Vec<String>>,
    pub tag_texts: Option<Vec<String>>,
    pub image: Option<String>,
    pub description: Option<String>,
    pub time_script: Option<String>,
}

/// What the detail page of an entry gives: its description and its fields, encoded.
pub struct Detail {
    pub description: Option<String>,
    pub fields: String,
}

/// The tag of an entry, trimmed; topics have none.
pub open spec fn tag_spec(e: ListingEntry) -> Option<Seq<char>> {
    if e.kind == NewsKind::Topic {
        None
    } else {
        match e.tag_texts {
            Some(t) => Some(trim_spec(strip_ends(concat_all(strings_view(t@))))),
            None => None,
        }
    }
}

/// How many of the title's first text nodes belong to its first child element, the
/// tag, and so are not part of the title.
pub open spec fn tag_node_count(e: ListingEntry, texts: Seq<Seq<char>>) -> int {
    if e.kind == NewsKind::Topic {
        0
    } else {
        match e.tag_texts {
            Some(t) => if t@.len() <= texts.len() {
                t@.len() as int
            } else {
                texts.len() as int
            },
            None => 0,
        }
    }
}

/// The text nodes that make up the title: those of the title without its first
/// child element, which come first in document order.
pub open spec fn title_parts(e: ListingEntry, texts: Seq<Seq<char>>) -> Seq<Seq<char>> {
    texts.subrange(tag_node_count(e, texts), texts.len() as int)
}

/// The record an entry yields, given what its detail page gave (for entries other
/// than topics), or `None` when something it needs is missing or malformed.
pub open spec fn item_spec(e: ListingEntry, detail: Option<Detail>) -> Option<NewsItemView> {
    if e.href is None || e.title_texts is None || e.time_script is None || script_time(
        e.time_script->Some_0@,
    ) is None || (e.kind != NewsKind::Topic && detail is None) {
        None
    } else {
        let href = e.href->Some_0@;
        let topic = e.kind == NewsKind::Topic;
        Some(
            NewsItemView {
                title: trim_spec(
                    concat_all(title_parts(e, strings_view(e.title_texts->Some_0@))),
                ),
                url: absolute_url_spec(href),
                description: if topic {
                    opt_view(e.description)
                } else {
                    opt_view(detail->Some_0.description)
                },
                fields: if topic {
                    None
                } else {
                    Some(detail->Some_0.fields@)
                },
                image: if topic {
                    opt_view(e.image)
                } else {
                    None
                },
                lodestone_id: source_id_spec(href),
                kind: e.kind,
                created: script_time(e.time_script->Some_0@)->Some_0,
                tag: tag_spec(e),
            },
        )
    }
}

fn clone_opt(o: &Option<String>) -> (r: Option<String>)
    ensures
        opt_view(r) == opt_view(*o),
{
    match o {
        Some(s) => Some(s.clone()),
        None => None,
    }
}

/// Builds the record of a listing entry. Entries other than topics need what their
/// detail page gave; an entry without a link, a title or a readable time yields
/// nothing.
pub fn build_item(e: &ListingEntry, detail: Option<&Detail>) -> (r: Option<NewNewsItem>)
    ensures
        match item_spec(
            *e,
            match detail {
                Some(d) => Some(*d),
                None => None,
            },
        ) {
            Some(v) => r matches Some(it) && it@ == v,
            None => r is None,
        },
{
    let topic = e.kind == NewsKind::Topic;
    let href = match &e.href {
        Some(h) => h,
        None => return None,
    };
    let texts = match &e.title_texts {
        Some(t) => t,
        None => return None,
    };
    let script = match &e.time_script {
        Some(s) => s,
        None => return None,
    };
    let created = match time_of_script(script.as_str()) {
        Some(t) => t,
        None => return None,
    };
    if !topic && detail.is_none() {
        return None;
    }
    let tag = if topic {
        None
    } else {
        match &e.tag_texts {
            Some(t) => {
                let whole = crate::text::concat_from(t, 0);
                proof {
                    assert(strings_view(t@).subrange(0, t@.len() as int) =~= strings_view(t@));
                }
                let stripped = strip_tag(whole.as_str());
                Some(trim(stripped.as_str()))
            },
            None => None,
        }
    };
    let skip: usize = if topic {
        0
    } else {
        match &e.tag_texts {
            Some(t) => if t.len() <= texts.len() {
                t.len()
            } else {
                texts.len()
            },
            None => 0,
        }
    };
    let raw_title = crate::text::concat_from(texts, skip);
    let title = trim(raw_title.as_str());
    let (description, fields, image) = if topic {
        (clone_opt(&e.description), None, clone_opt(&e.image))
    } else {
        let d = detail.unwrap();
        (clone_opt(&d.description), Some(d.fields.clone()), None)
    };
    Some(
        NewNewsItem {
            title,
            url: absolute_url(href.as_str()),
            description,
            fields,
            image,
            lodestone_id: source_id(href.as_str()),
            kind: e.kind,
            created,
            tag,
        },
    )
}

} // verus!

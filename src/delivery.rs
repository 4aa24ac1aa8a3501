use vstd::prelude::*;

use crate::fields::{fields_view, Field};
use crate::news_item::{kind_name, NewsKind};

verus! {

/// A registered webhook destination.
pub struct Server {
    pub id: i32,
    pub title: String,
    pub url: String,
    /// When it was registered, in seconds since the Unix epoch.
    pub created: i64,
}

/// A stored news record, as delivery reads it.
pub struct NewsItem {
    pub id: i32,
    pub title: String,
    pub url: String,
    pub description: Option<String>,
    pub fields: Option<String>,
    pub image: Option<String>,
    pub lodestone_id: String,
    pub kind: NewsKind,
    /// Seconds since the Unix epoch, as the source gave it.
    pub created: i64,
    pub tag: Option<String>,
}

/// A stored mark: the record was delivered to the destination.
pub struct SendRecord {
    pub server_id: i32,
    pub news_id: i32,
}

/// A mark to store after a delivery that the destination accepted.
pub struct NewSendRecord {
    pub server_id: i32,
    pub news_id: i32,
}

/// The (destination, record) pairs that the marks name.
pub open spec fn marks_view(v: Seq<SendRecord>) -> Seq<(i32, i32)> {
    v.map_values(|m: SendRecord| (m.server_id, m.news_id))
}

/// A record is due to a destination when it is not older than the destination's
/// registration and has not been delivered to it.
pub open spec fn eligible(s: Server, it: NewsItem, marks: Seq<(i32, i32)>) -> bool {
    it.created >= s.created && !marks.contains((s.id, it.id))
}

/// The due pairs of destination `si` among the first `n` records, by record index.
pub open spec fn pending_row(
    servers: Seq<Server>,
    si: int,
    items: Seq<NewsItem>,
    n: int,
    marks: Seq<(i32, i32)>,
) -> Seq<(usize, usize)>
    decreases n,
{
    if n <= 0 {
        Seq::empty()
    } else {
        let prev = pending_row(servers, si, items, n - 1, marks);
        if eligible(servers[si], items[n - 1], marks) {
            prev.push((si as usize, (n - 1) as usize))
        } else {
            prev
        }
    }
}

/// The due pairs of the first `m` destinations, destination by destination.
pub open spec fn pending_upto(
    servers: Seq<Server>,
    m: int,
    items: Seq<NewsItem>,
    marks: Seq<(i32, i32)>,
) -> Seq<(usize, usize)>
    decreases m,
{
    if m <= 0 {
        Seq::empty()
    } else {
        pending_upto(servers, m - 1, items, marks) + pending_row(
            servers,
            m - 1,
            items,
            items.len() as int,
            marks,
        )
    }
}

/// All due pairs, as (destination index, record index).
pub open spec fn pending_spec(servers: Seq<Server>, items: Seq<NewsItem>, marks: Seq<(i32, i32)>) -> Seq<
    (usize, usize),
> {
    pending_upto(servers, servers.len() as int, items, marks)
}

fn is_marked(marks: &Vec<SendRecord>, server_id: i32, news_id: i32) -> (r: bool)
    ensures
        r == marks_view(marks@).contains((server_id, news_id)),
{
    let mut i: usize = 0;
    while i < marks.len()
        invariant
            i <= marks.len(),
            forall|j: int|
                0 <= j < i ==> (#[trigger] marks_view(marks@)[j]) != (server_id, news_id),
        decreases marks.len() - i,
    {
        if marks[i].server_id == server_id && marks[i].news_id == news_id {
            assert(marks_view(marks@)[i as int] == (server_id, news_id));
            return true;
        }
        i += 1;
    }
    false
}

/// The pairs to deliver: each destination with each record that is not older than
/// its registration and not yet marked as delivered to it, destination by
/// destination, records in order.
pub fn pending_sends(servers: &Vec<Server>, items: &Vec<NewsItem>, marks: &Vec<SendRecord>) -> (r:
    Vec<(usize, usize)>)
    ensures
        r@ == pending_spec(servers@, items@, marks_view(marks@)),
{
    let ghost mv = marks_view(marks@);
    let mut out: Vec<(usize, usize)> = Vec::new();
    let mut si: usize = 0;
    while si < servers.len()
        invariant
            si <= servers.len(),
            mv == marks_view(marks@),
            out@ == pending_upto(servers@, si as int, items@, mv),
        decreases servers.len() - si,
    {
        let ghost base = out@;
        let mut ii: usize = 0;
        while ii < items.len()
            invariant
                si < servers.len(),
                ii <= items.len(),
                mv == marks_view(marks@),
                base == pending_upto(servers@, si as int, items@, mv),
                out@ == base + pending_row(servers@, si as int, items@, ii as int, mv),
            decreases items.len() - ii,
        {
            let s = &servers[si];
            let it = &items[ii];
            if it.created >= s.created && !is_marked(marks, s.id, it.id) {
                out.push((si, ii));
                assert(out@ =~= base + pending_row(servers@, si as int, items@, ii + 1, mv));
            } else {
                assert(out@ =~= base + pending_row(servers@, si as int, items@, ii + 1, mv));
            }
            ii += 1;
        }
        si += 1;
    }
    out
}

proof fn lemma_row_members(
    servers: Seq<Server>,
    si: int,
    items: Seq<NewsItem>,
    n: int,
    marks: Seq<(i32, i32)>,
)
    requires
        0 <= si < servers.len(),
        n <= items.len(),
        servers.len() <= usize::MAX,
        items.len() <= usize::MAX,
    ensures
        forall|k: int|
            0 <= k < pending_row(servers, si, items, n, marks).len() ==> {
                let p = #[trigger] pending_row(servers, si, items, n, marks)[k];
                &&& p.0 == si
                &&& p.1 < items.len()
                &&& eligible(servers[si], items[p.1 as int], marks)
            },
    decreases n,
{
    if n > 0 {
        lemma_row_members(servers, si, items, n - 1, marks);
        let prev = pending_row(servers, si, items, n - 1, marks);
        let row = pending_row(servers, si, items, n, marks);
        assert forall|k: int| 0 <= k < row.len() implies {
            let p = #[trigger] row[k];
            &&& p.0 == si
            &&& p.1 < items.len()
            &&& eligible(servers[si], items[p.1 as int], marks)
        } by {
            if k < prev.len() {
                assert(row[k] == prev[k]);
            }
        }
    }
}

proof fn lemma_upto_members(
    servers: Seq<Server>,
    m: int,
    items: Seq<NewsItem>,
    marks: Seq<(i32, i32)>,
)
    requires
        m <= servers.len(),
        servers.len() <= usize::MAX,
        items.len() <= usize::MAX,
    ensures
        forall|k: int|
            0 <= k < pending_upto(servers, m, items, marks).len() ==> {
                let p = #[trigger] pending_upto(servers, m, items, marks)[k];
                &&& p.0 < servers.len()
                &&& p.1 < items.len()
                &&& eligible(servers[p.0 as int], items[p.1 as int], marks)
            },
    decreases m,
{
    if m > 0 {
        lemma_upto_members(servers, m - 1, items, marks);
        lemma_row_members(servers, m - 1, items, items.len() as int, marks);
        let a = pending_upto(servers, m - 1, items, marks);
        let b = pending_row(servers, m - 1, items, items.len() as int, marks);
        assert forall|k: int| 0 <= k < (a + b).len() implies {
            let p = #[trigger] (a + b)[k];
            &&& p.0 < servers.len()
            &&& p.1 < items.len()
            &&& eligible(servers[p.0 as int], items[p.1 as int], marks)
        } by {
            if k < a.len() {
                assert((a + b)[k] == a[k]);
            } else {
                assert((a + b)[k] == b[k - a.len()]);
            }
        }
    }
}

/// Every pair that is selected is due: its record is not older than the destination's
/// registration, and no mark names the pair.
pub proof fn lemma_pending_are_eligible(
    servers: Seq<Server>,
    items: Seq<NewsItem>,
    marks: Seq<(i32, i32)>,
    a: usize,
    b: usize,
)
    requires
        servers.len() <= usize::MAX,
        items.len() <= usize::MAX,
        pending_spec(servers, items, marks).contains((a, b)),
    ensures
        a < servers.len(),
        b < items.len(),
        items[b as int].created >= servers[a as int].created,
        !marks.contains((servers[a as int].id, items[b as int].id)),
{
    lemma_upto_members(servers, servers.len() as int, items, marks);
    let k = choose|k: int|
        0 <= k < pending_spec(servers, items, marks).len() && pending_spec(servers, items, marks)[k]
            == (a, b);
    assert(pending_spec(servers, items, marks)[k] == (a, b));
}

/// A record older than a destination's registration is never selected for it.
pub proof fn lemma_backlog_never_sent(
    servers: Seq<Server>,
    items: Seq<NewsItem>,
    marks: Seq<(i32, i32)>,
    a: usize,
    b: usize,
)
    requires
        servers.len() <= usize::MAX,
        items.len() <= usize::MAX,
        a < servers.len(),
        b < items.len(),
        items[b as int].created < servers[a as int].created,
    ensures
        !pending_spec(servers, items, marks).contains((a, b)),
{
    if pending_spec(servers, items, marks).contains((a, b)) {
        lemma_pending_are_eligible(servers, items, marks, a, b);
    }
}

/// Once the mark of a delivered pair is stored, the pair is never selected again.
pub proof fn lemma_marked_never_resent(
    servers: Seq<Server>,
    items: Seq<NewsItem>,
    marks: Seq<(i32, i32)>,
    a: usize,
    b: usize,
)
    requires
        servers.len() <= usize::MAX,
        items.len() <= usize::MAX,
        a < servers.len(),
        b < items.len(),
    ensures
        !pending_spec(
            servers,
            items,
            marks.push((servers[a as int].id, items[b as int].id)),
        ).contains((a, b)),
{
    let marks2 = marks.push((servers[a as int].id, items[b as int].id));
    if pending_spec(servers, items, marks2).contains((a, b)) {
        lemma_pending_are_eligible(servers, items, marks2, a, b);
        assert(marks2[marks.len() as int] == (servers[a as int].id, items[b as int].id));
    }
}

/// Whether a webhook's HTTP status means the delivery was accepted (2xx).
pub fn is_accepted(status: u16) -> (r: bool)
    ensures
        r == (200 <= status <= 299),
{
    200 <= status && status <= 299
}

/// The mark that records the delivery of a record to a destination.
pub fn mark_for(server: &Server, item: &NewsItem) -> (r: NewSendRecord)
    ensures
        r.server_id == server.id,
        r.news_id == item.id,
{
    NewSendRecord { server_id: server.id, news_id: item.id }
}

/// A field of a webhook embed.
pub struct EmbedField {
    pub name: String,
    pub value: String,
    pub inline: bool,
}

pub open spec fn embed_fields_view(v: Seq<EmbedField>) -> Seq<(Seq<char>, Seq<char>, bool)> {
    v.map_values(|f: EmbedField| (f.name@, f.value@, f.inline))
}

/// The fields an embed shows: the record's own fields, then its kind, then its tag if
/// it has one.
pub open spec fn embed_fields_spec(
    own: Seq<(Seq<char>, Seq<char>)>,
    kind: NewsKind,
    tag: Option<Seq<char>>,
) -> Seq<(Seq<char>, Seq<char>, bool)> {
    let base = own.map_values(|f: (Seq<char>, Seq<char>)| (f.0, f.1, false)).push(
        ("Kind"@, kind_name(kind), true),
    );
    match tag {
        Some(t) => base.push(("Tag"@, t, true)),
        None => base,
    }
}

/// Builds the fields of an embed from a record's own fields, its kind and its tag.
pub fn embed_fields(own: Vec<Field>, kind: NewsKind, tag: Option<&String>) -> (r: Vec<EmbedField>)
    ensures
        embed_fields_view(r@) == embed_fields_spec(
            fields_view(own@),
            kind,
            match tag {
                Some(t) => Some(t@),
                None => None,
            },
        ),
{
    let ghost own_v = fields_view(own@);
    let ghost mapped = own_v.map_values(|f: (Seq<char>, Seq<char>)| (f.0, f.1, false));
    let mut out: Vec<EmbedField> = Vec::new();
    let mut i: usize = 0;
    while i < own.len()
        invariant
            i <= own.len(),
            own_v == fields_view(own@),
            mapped == own_v.map_values(|f: (Seq<char>, Seq<char>)| (f.0, f.1, false)),
            embed_fields_view(out@) == mapped.subrange(0, i as int),
        decreases own.len() - i,
    {
        let f = EmbedField { name: own[i].name.clone(), value: own[i].value.clone(), inline: false };
        proof {
            assert(own_v[i as int] == own@[i as int]@);
            assert(mapped[i as int] == (f.name@, f.value@, false));
            assert(embed_fields_view(out@.push(f)) =~= embed_fields_view(out@).push(
                (f.name@, f.value@, f.inline),
            ));
            assert(mapped.subrange(0, i + 1) =~= mapped.subrange(0, i as int).push(
                mapped[i as int],
            ));
        }
        out.push(f);
        i += 1;
    }
    proof {
        assert(mapped.subrange(0, i as int) =~= mapped);
    }
    let k = EmbedField { name: "Kind".to_owned(), value: kind.to_string(), inline: true };
    proof {
        assert(embed_fields_view(out@.push(k)) =~= embed_fields_view(out@).push((k.name@, k.value@, true)));
    }
    out.push(k);
    if let Some(t) = tag {
        let f = EmbedField { name: "Tag".to_owned(), value: t.clone(), inline: true };
        proof {
            assert(embed_fields_view(out@.push(f)) =~= embed_fields_view(out@).push((f.name@, f.value@, true)));
        }
        out.push(f);
    }
    out
}

} // verus!

use vstd::prelude::*;

verus! {

/// What the lower-case form of a text is, as `str::to_lowercase` computes it.
pub uninterp spec fn lowercase_of(s: Seq<char>) -> Seq<char>;

/// Relies on `str::to_lowercase`: the result depends on the characters alone.
#[verifier::external_body]
fn to_lowercase(s: &str) -> (r: String)
    ensures
        r@ == lowercase_of(s@),
{
    s.to_lowercase()
}

/// The three sections of the news listing.
#[derive(Clone, Copy, Debug, PartialEq, Eq, Structural)]
pub enum NewsKind {
    SpecialNotice,
    News,
    Topic,
}

/// The number a kind is stored as.
pub open spec fn kind_code(k: NewsKind) -> i16 {
    match k {
        NewsKind::SpecialNotice => 0,
        NewsKind::News => 1,
        NewsKind::Topic => 2,
    }
}

/// The colour of a tag, given in lower case, when it is one of the known tags.
pub open spec fn tag_color(lowered: Seq<char>) -> Option<u32> {
    if lowered == "maintenance"@ {
        Some(0xd3730c)
    } else if lowered == "important"@ {
        Some(0xd30c0c)
    } else if lowered == "recovery"@ {
        Some(0x34d30c)
    } else if lowered == "follow-up"@ {
        Some(0x0c80d3)
    } else {
        None
    }
}

/// The colour of a kind when no known tag decides it.
pub open spec fn kind_color(k: NewsKind) -> Option<u32> {
    match k {
        NewsKind::News => None,
        NewsKind::SpecialNotice => Some(0x0cd3cd),
        NewsKind::Topic => Some(0x620cd3),
    }
}

/// The colour of an item of kind `k` whose tag, in lower case, is `lowered`: a known
/// tag decides; otherwise the kind does.
pub open spec fn color_spec(k: NewsKind, lowered: Option<Seq<char>>) -> Option<u32> {
    match lowered {
        Some(t) => match tag_color(t) {
            Some(c) => Some(c),
            None => kind_color(k),
        },
        None => kind_color(k),
    }
}

/// The name a kind is shown under.
pub open spec fn kind_name(k: NewsKind) -> Seq<char> {
    match k {
        NewsKind::News => "News"@,
        NewsKind::Topic => "Topic"@,
        NewsKind::SpecialNotice => "Special notice"@,
    }
}

fn same_text(a: &String, b: &str) -> (r: bool)
    ensures
        r == (a@ == b@),
{
    let b = b.to_owned();
    *a == b
}

impl NewsKind {
    pub fn as_i16(&self) -> (r: i16)
        ensures
            r == kind_code(*self),
    {
        match *self {
            NewsKind::SpecialNotice => 0,
            NewsKind::News => 1,
            NewsKind::Topic => 2,
        }
    }

    pub fn from_i16(i: i16) -> (r: Option<NewsKind>)
        ensures
            r matches Some(k) ==> kind_code(k) == i,
            r is None <==> !(0 <= i <= 2),
    {
        match i {
            0 => Some(NewsKind::SpecialNotice),
            1 => Some(NewsKind::News),
            2 => Some(NewsKind::Topic),
            _ => None,
        }
    }

    /// The colour of a tag that is already in lower case, if it is a known one.
    pub fn color_of_lowered_tag(lowered: &String) -> (r: Option<u32>)
        ensures
            r == tag_color(lowered@),
    {
        if same_text(lowered, "maintenance") {
            Some(0xd3730c)
        } else if same_text(lowered, "important") {
            Some(0xd30c0c)
        } else if same_text(lowered, "recovery") {
            Some(0x34d30c)
        } else if same_text(lowered, "follow-up") {
            Some(0x0c80d3)
        } else {
            None
        }
    }

    /// The colour for an item of this kind with a tag already in lower case.
    pub fn color_lowered(&self, lowered: Option<&String>) -> (r: Option<u32>)
        ensures
            r == color_spec(
                *self,
                match lowered {
                    Some(t) => Some(t@),
                    None => None,
                },
            ),
    {
        if let Some(t) = lowered {
            if let Some(c) = Self::color_of_lowered_tag(t) {
                return Some(c);
            }
        }
        match *self {
            NewsKind::News => None,
            NewsKind::SpecialNotice => Some(0x0cd3cd),
            NewsKind::Topic => Some(0x620cd3),
        }
    }

    /// The colour for an item of this kind with this tag: a known tag, in any case,
    /// decides; otherwise the kind does.
    pub fn color(&self, tag: Option<&String>) -> (r: Option<u32>)
        ensures
            r == color_spec(
                *self,
                match tag {
                    Some(t) => Some(lowercase_of(t@)),
                    None => None,
                },
            ),
    {
        match tag {
            Some(t) => {
                let lowered = to_lowercase(t.as_str());
                self.color_lowered(Some(&lowered))
            },
            None => self.color_lowered(None),
        }
    }

    /// The name this kind is shown under.
    pub fn to_string(&self) -> (r: String)
        ensures
            r@ == kind_name(*self),
    {
        match *self {
            NewsKind::News => "News".to_owned(),
            NewsKind::Topic => "Topic".to_owned(),
            NewsKind::SpecialNotice => "Special notice".to_owned(),
        }
    }
}

/// A news record ready to be stored: it has no id yet.
pub struct NewNewsItem {
    pub title: String,
    pub url: String,
    pub description: Option<String>,
    pub fields: Option<String>,
    pub image: Option<String>,
    pub lodestone_id: String,
    pub kind: NewsKind,
    /// Seconds since the Unix epoch, as the source gives it.
    pub created: i64,
    pub tag: Option<String>,
}

/// What a news record holds.
pub struct NewsItemView {
    pub title: Seq<char>,
    pub url: Seq<char>,
    pub description: Option<Seq<char>>,
    pub fields: Option<Seq<char>>,
    pub image: Option<Seq<char>>,
    pub lodestone_id: Seq<char>,
    pub kind: NewsKind,
    pub created: i64,
    pub tag: Option<Seq<char>>,
}

pub open spec fn opt_view(o: Option<String>) -> Option<Seq<char>> {
    match o {
        Some(s) => Some(s@),
        None => None,
    }
}

impl View for NewNewsItem {
    type V = NewsItemView;

    open spec fn view(&self) -> NewsItemView {
        NewsItemView {
            title: self.title@,
            url: self.url@,
            description: opt_view(self.description),
            fields: opt_view(self.fields),
            image: opt_view(self.image),
            lodestone_id: self.lodestone_id@,
            kind: self.kind,
            created: self.created,
            tag: opt_view(self.tag),
        }
    }
}

/// What a vector of records holds, record by record.
pub open spec fn items_view(v: Seq<NewNewsItem>) -> Seq<NewsItemView> {
    v.map_values(|x: NewNewsItem| x@)
}

/// The source ids of a sequence of records.
pub open spec fn ids_of(v: Seq<NewsItemView>) -> Seq<Seq<char>> {
    v.map_values(|x: NewsItemView| x.lodestone_id)
}

/// An error reported while reading a stored value.
pub struct SqlError(pub String);

impl SqlError {
    pub fn new(s: &str) -> (r: SqlError)
        ensures
            r.0@ == s@,
    {
        SqlError(s.to_owned())
    }

    /// The message of the error.
    pub fn to_string(&self) -> (r: String)
        ensures
            r@ == self.0@,
    {
        self.0.clone()
    }
}

} // verus!

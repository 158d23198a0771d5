//! The catalogue's records: a novel as a listing page shows it, and the ways a
//! listing's texts become one.

use vstd::prelude::*;
use crate::cover::{cover_url, cover_url_of};
use crate::numbers::{
    count_of, decimal_digits, decimal_text, lemma_count_of_decimal, parse_count, ParseCountError,
};
use crate::text::{debug_list, debug_list_text, texts};
use crate::timestamp::{
    chrono_parsed, is_plain_datetime_text, parse_with_format, timestamp_text, Timestamp,
};

verus! {

/// How a novel was translated.
#[derive(Debug, Clone, Copy, PartialEq, Eq, Structural)]
pub enum TranslationKind {
    Manual,
    Machine,
}

/// Whether a novel is still being written.
#[derive(Debug, Clone, Copy, PartialEq, Eq, Structural)]
pub enum Status {
    Ongoing,
    Completed,
}

/// Where a novel comes from.
#[derive(Debug, Clone, Copy, PartialEq, Eq, Structural)]
pub enum Country {
    China,
    Korea,
    Japan,
}

/// The readership a novel is written for.
#[derive(Debug, Clone, Copy, PartialEq, Eq, Structural)]
pub enum Gender {
    Male,
    Female,
}

/// Why a search listing could not be read.
#[derive(Debug, Clone, Copy, PartialEq, Eq, Structural)]
pub enum ListingError {
    /// The view count is not a count.
    Views(ParseCountError),
    /// The last-update time does not have the form `%Y-%m-%d %H:%M:%S`.
    LastUpdate,
}

/// A novel as the catalogue lists it.
pub struct Novel {
    url: String,
    cover_url: String,
    title: String,
    tags: Vec<String>,
    views: Option<usize>,
    last_update: Option<Timestamp>,
}

/// What a `Novel` holds.
pub struct NovelView {
    pub url: Seq<char>,
    pub cover_url: Seq<char>,
    pub title: Seq<char>,
    pub tags: Seq<Seq<char>>,
    pub views: Option<usize>,
    pub last_update: Option<Timestamp>,
}

impl View for Novel {
    type V = NovelView;

    closed spec fn view(&self) -> NovelView {
        NovelView {
            url: self.url@,
            cover_url: self.cover_url@,
            title: self.title@,
            tags: texts(self.tags@),
            views: self.views,
            last_update: self.last_update,
        }
    }
}

/// The time format of a search listing's last-update time.
pub open spec fn listing_time_format() -> Seq<char> {
    "%Y-%m-%d %H:%M:%S"@
}

/// The text that describes a novel: its address, cover address, title, tags in
/// debug form, view count (0 where unknown) and last update (1970-01-01
/// 00:00:00 where unknown), one per line.
pub open spec fn novel_text(n: NovelView) -> Seq<char> {
    let views: nat = match n.views {
        Some(v) => v as nat,
        None => 0,
    };
    let last = match n.last_update {
        Some(t) => t,
        None => Timestamp {
            year: 1970,
            month: 1,
            day: 1,
            hour: 0,
            minute: 0,
            second: 0,
            nanosecond: 0,
        },
    };
    "Novel {\n  url: "@ + n.url + "\n  cover_url: "@ + n.cover_url + "\n  title: "@ + n.title
        + "\n  tags: "@ + debug_list_text(n.tags) + "\n  views: "@ + decimal_digits(views)
        + "\n  last_update: "@ + timestamp_text(last) + "\n}"@
}

/// The description of a novel shows its view count, 0 where it is unknown, on
/// the line before the last update: whatever comes first, the text ends with
/// `views: `, then digits that read back as that count, then the last-update
/// line.
pub proof fn lemma_novel_text_views(n: NovelView)
    ensures
        exists|p: Seq<char>, d: Seq<char>|
            {
                &&& novel_text(n) == p + "\n  views: "@ + d + "\n  last_update: "@ + timestamp_text(
                    match n.last_update {
                        Some(t) => t,
                        None => Timestamp {
                            year: 1970,
                            month: 1,
                            day: 1,
                            hour: 0,
                            minute: 0,
                            second: 0,
                            nanosecond: 0,
                        },
                    },
                ) + "\n}"@
                &&& count_of(d) == Ok::<usize, ParseCountError>(
                    match n.views {
                        Some(v) => v,
                        None => 0usize,
                    },
                )
            },
{
    let v: usize = match n.views {
        Some(v) => v,
        None => 0usize,
    };
    let last = match n.last_update {
        Some(t) => t,
        None => Timestamp {
            year: 1970,
            month: 1,
            day: 1,
            hour: 0,
            minute: 0,
            second: 0,
            nanosecond: 0,
        },
    };
    let p = "Novel {\n  url: "@ + n.url + "\n  cover_url: "@ + n.cover_url + "\n  title: "@
        + n.title + "\n  tags: "@ + debug_list_text(n.tags);
    let d = decimal_digits(v as nat);
    lemma_count_of_decimal(v);
    assert(novel_text(n) =~= p + "\n  views: "@ + d + "\n  last_update: "@ + timestamp_text(last)
        + "\n}"@);
}

impl Novel {
    /// A novel from a listing of the week's new novels: its address, cover
    /// style, title and main tag. Its view count and last update are unknown.
    pub fn from_week_new_listing(
        url: String,
        cover_style: &str,
        title: String,
        main_tag: String,
    ) -> (r: Novel)
        requires
            cover_url_of(cover_style@) is Some,
        ensures
            r@ == (NovelView {
                url: url@,
                cover_url: cover_url_of(cover_style@)->0,
                title: title@,
                tags: seq![main_tag@],
                views: None,
                last_update: None,
            }),
    {
        let cover = cover_url(cover_style);
        let cover = match cover {
            Some(c) => c,
            None => String::new(),
        };
        let mut tags: Vec<String> = Vec::new();
        tags.push(main_tag);
        let r = Novel { url, cover_url: cover, title, tags, views: None, last_update: None };
        assert(r@.tags =~= seq![main_tag@]);
        r
    }

    /// A novel from a listing of the week's most read novels: its address,
    /// cover style, title and view count. It has no tags; its view count is
    /// unknown where the text is not a count; its last update is unknown.
    pub fn from_week_hot_listing(url: String, cover_style: &str, title: String, views_text: &str) -> (r:
        Novel)
        requires
            cover_url_of(cover_style@) is Some,
        ensures
            r@ == (NovelView {
                url: url@,
                cover_url: cover_url_of(cover_style@)->0,
                title: title@,
                tags: Seq::<Seq<char>>::empty(),
                views: match count_of(views_text@) {
                    Ok(v) => Some(v),
                    Err(_) => None,
                },
                last_update: None,
            }),
    {
        let cover = match cover_url(cover_style) {
            Some(c) => c,
            None => String::new(),
        };
        let views = match parse_count(views_text) {
            Ok(v) => Some(v),
            Err(_) => None,
        };
        let tags: Vec<String> = Vec::new();
        let r = Novel { url, cover_url: cover, title, tags, views, last_update: None };
        assert(r@.tags =~= Seq::<Seq<char>>::empty());
        r
    }

    /// A novel from a search listing: its address, cover style, title, view
    /// count and last-update time. The view count must be a count and the time
    /// must have the form `%Y-%m-%d %H:%M:%S`, checked in that order; the
    /// novel then keeps neither of them, and has no tags. A listing whose view
    /// count is a count and whose time is a text `YYYY-MM-DD hh:mm:ss` naming a
    /// date that exists and a time of day is always read.
    pub fn from_search_listing(
        url: String,
        cover_style: &str,
        title: String,
        views_text: &str,
        last_update_text: &str,
    ) -> (r: Result<Novel, ListingError>)
        requires
            cover_url_of(cover_style@) is Some,
        ensures
            count_of(views_text@) is Ok && is_plain_datetime_text(last_update_text@) ==> r is Ok,
            match count_of(views_text@) {
                Err(e) => r == Err::<Novel, ListingError>(ListingError::Views(e)),
                Ok(_) => match chrono_parsed(last_update_text@, listing_time_format()) {
                    None => r == Err::<Novel, ListingError>(ListingError::LastUpdate),
                    Some(_) => r matches Ok(n) && n@ == (NovelView {
                        url: url@,
                        cover_url: cover_url_of(cover_style@)->0,
                        title: title@,
                        tags: Seq::<Seq<char>>::empty(),
                        views: None,
                        last_update: None,
                    }),
                },
            },
    {
        let cover = match cover_url(cover_style) {
            Some(c) => c,
            None => String::new(),
        };
        match parse_count(views_text) {
            Err(e) => {
                return Err(ListingError::Views(e));
            },
            Ok(_) => {},
        }
        match parse_with_format(last_update_text, "%Y-%m-%d %H:%M:%S") {
            Err(_) => {
                return Err(ListingError::LastUpdate);
            },
            Ok(_) => {},
        }
        let tags: Vec<String> = Vec::new();
        let r = Novel { url, cover_url: cover, title, tags, views: None, last_update: None };
        assert(r@.tags =~= Seq::<Seq<char>>::empty());
        Ok(r)
    }

    /// The text of a chapter; no chapter is fetched, so it is empty.
    pub fn get_chapter(&self, chapter_num: usize) -> (r: String)
        ensures
            r@ == Seq::<char>::empty(),
    {
        String::new()
    }

    /// Loads the novel's details; nothing is loaded, so the novel stays as it is.
    pub fn load_info(&mut self)
        ensures
            final(self)@ == old(self)@,
    {
    }

    /// Describes the novel field by field, as its debug form.
    pub fn describe(&self) -> (r: String)
        ensures
            r@ == novel_text(self@),
    {
        let mut out = String::from_str("Novel {\n  url: ");
        out.append(self.url.as_str());
        out.append("\n  cover_url: ");
        out.append(self.cover_url.as_str());
        out.append("\n  title: ");
        out.append(self.title.as_str());
        out.append("\n  tags: ");
        let tags = debug_list(&self.tags);
        out.append(tags.as_str());
        out.append("\n  views: ");
        let views: usize = match self.views {
            Some(v) => v,
            None => 0,
        };
        let views_text = decimal_text(views);
        out.append(views_text.as_str());
        out.append("\n  last_update: ");
        let last = match self.last_update {
            Some(t) => t,
            None => Timestamp::epoch(),
        };
        let last_text = last.text();
        out.append(last_text.as_str());
        out.append("\n}");
        assert(out@ =~= novel_text(self@));
        out
    }

    /// The novel's address.
    pub fn url(&self) -> (r: &str)
        ensures
            r@ == self@.url,
    {
        self.url.as_str()
    }

    /// The address of the novel's cover picture.
    pub fn cover_url(&self) -> (r: &str)
        ensures
            r@ == self@.cover_url,
    {
        self.cover_url.as_str()
    }

    /// The novel's title.
    pub fn title(&self) -> (r: &str)
        ensures
            r@ == self@.title,
    {
        self.title.as_str()
    }

    /// The novel's tags.
    pub fn tags(&self) -> (r: &Vec<String>)
        ensures
            texts(r@) == self@.tags,
    {
        &self.tags
    }

    /// How often the novel was read, where known.
    pub fn views(&self) -> (r: Option<usize>)
        ensures
            r == self@.views,
    {
        self.views
    }

    /// When the novel was last updated, where known.
    pub fn last_update(&self) -> (r: Option<Timestamp>)
        ensures
            r == self@.last_update,
    {
        self.last_update
    }
}

} // verus!

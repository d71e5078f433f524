//! The value types of the store: identifiers, visibility, articles, and the
//! result types its callers branch on.

use vstd::prelude::*;
use crate::timestamp::Timestamp;

verus! {

/// An opaque, case-sensitive identifier; equality is by characters.
#[derive(Clone, Debug, Hash, Eq)]
pub struct ArticleId(pub String);

impl ArticleId {
    pub fn new(s: String) -> (r: Self)
        ensures
            r@ == s@,
    {
        Self(s)
    }
}

impl View for ArticleId {
    type V = Seq<char>;

    open spec fn view(&self) -> Seq<char> {
        self.0@
    }
}

impl PartialEq for ArticleId {
    fn eq(&self, other: &Self) -> (r: bool) {
        self.0 == other.0
    }
}

impl vstd::std_specs::cmp::PartialEqSpecImpl for ArticleId {
    open spec fn obeys_eq_spec() -> bool {
        true
    }

    open spec fn eq_spec(&self, other: &Self) -> bool {
        self.0@ == other.0@
    }
}

/// Tri-state access tag controlling whether listings include a record.
#[derive(Copy, Clone, Debug, Hash, PartialEq, Eq, Structural)]
pub enum Visibility {
    Public,
    Restricted,
    Private,
}

impl Visibility {
    /// The name the on-disk format stores for this tag.
    pub open spec fn spec_name(self) -> Seq<char> {
        match self {
            Visibility::Public => "public"@,
            Visibility::Restricted => "restricted"@,
            Visibility::Private => "private"@,
        }
    }

    pub fn name(&self) -> (r: &'static str)
        ensures
            r@ == self.spec_name(),
    {
        match self {
            Visibility::Public => "public",
            Visibility::Restricted => "restricted",
            Visibility::Private => "private",
        }
    }
}

/// One stored record.
#[derive(Clone, Debug, PartialEq, Eq)]
pub struct Article {
    pub created_at: Timestamp,
    pub updated_at: Timestamp,
    pub content: String,
    pub visibility: Visibility,
}

/// The mathematical value of an [`Article`].
pub struct ArticleV {
    pub created_at: Timestamp,
    pub updated_at: Timestamp,
    pub content: Seq<char>,
    pub visibility: Visibility,
}

impl View for Article {
    type V = ArticleV;

    open spec fn view(&self) -> ArticleV {
        ArticleV {
            created_at: self.created_at,
            updated_at: self.updated_at,
            content: self.content@,
            visibility: self.visibility,
        }
    }
}

impl ArticleV {
    /// Timestamps in range, and no update before the creation.
    pub open spec fn wf(self) -> bool {
        &&& self.created_at.wf()
        &&& self.updated_at.wf()
        &&& self.created_at.le(self.updated_at)
    }
}

impl Article {
    pub open spec fn wf(self) -> bool {
        self@.wf()
    }

    /// A copy with the same value (`clone` would promise nothing here).
    pub fn duplicate(&self) -> (r: Article)
        ensures
            r@ == self@,
    {
        Article {
            created_at: self.created_at,
            updated_at: self.updated_at,
            content: self.content.clone(),
            visibility: self.visibility,
        }
    }
}

} // verus!

verus! {

use vstd::string::StrSliceExecFns;
use crate::chars::{str_to_chars, chars_eq_str};
use crate::numeral::dec_val_exec;

/// The text body of one article.
pub struct ArticleContent(String);

impl ArticleContent {
    pub fn new(s: String) -> (r: Self)
        ensures
            r@ == s@,
    {
        Self(s)
    }

    pub fn into_inner(self) -> (r: String)
        ensures
            r@ == self@,
    {
        self.0
    }
}

impl View for ArticleContent {
    type V = Seq<char>;

    closed spec fn view(&self) -> Seq<char> {
        self.0@
    }
}

/// A warning worth sending back to the author of a freshly created article.
#[derive(Copy, Clone, Debug, Hash, PartialEq, Eq, Structural)]
pub enum ArticleCreateWarning {
    /// The body came without any newline, which `curl -d` strips silently.
    CurlSpecificNoNewLine,
}

impl ArticleCreateWarning {
    /// The advice shown for this warning.
    pub fn message(&self) -> (r: &'static str) {
        match self {
            ArticleCreateWarning::CurlSpecificNoNewLine =>
                "There's no newlines. Perhaps you should use --data-binary instead?\n\
                 Note: `man curl(1)` said:\n\
                 \x20   > When -d, --data is told to read from a file like that, carriage\n\
                 \x20   > returns and newlines  will  be stripped out.",
        }
    }
}

/// What a successful creation hands back.
pub struct ArticleCreatedNotice {
    pub warnings: Vec<ArticleCreateWarning>,
    pub allocated_id: ArticleId,
}

#[derive(Copy, Clone, Debug, PartialEq, Eq, Structural)]
pub enum CreateArticleError {
    Unauthorized,
    DuplicatedArticleId,
    InvalidUtf8,
}

/// A value together with the metadata a response carries about it.
pub struct OwnedMetadata<M, D> {
    pub metadata: M,
    pub data: D,
}

pub struct ArticleSnapshotMetadata {
    pub updated_at: crate::timestamp::Timestamp,
}

pub struct ArticleSnapshot {
    pub content: ArticleContent,
}

#[derive(Copy, Clone, Debug, PartialEq, Eq, Structural)]
pub enum GetArticleError {
    NoSuchArticleFoundById,
}

#[derive(Copy, Clone, Debug, PartialEq, Eq, Structural)]
pub enum UpdateArticleError {
    InvalidBearerToken,
    ArticleNotFoundById,
    InvalidByteSequenceForUtf8,
}

#[derive(Copy, Clone, Debug, PartialEq, Eq, Structural)]
pub enum DeleteArticleError {
    InvalidBearerToken,
    NoSuchArticleFoundById,
}

#[derive(Copy, Clone, Debug, PartialEq, Eq, Structural)]
pub enum ChangeArticleIdError {
    Unauthorized,
    ArticleNotFoundById,
}

/// How a listing is to be sorted.
#[derive(Copy, Clone, Debug, PartialEq, Eq, Structural)]
pub enum ListArticleSortPolicy {
    Newest,
    Oldest,
    RecentUpdated,
    LeastRecentlyUpdated,
}

impl ListArticleSortPolicy {
    /// The policy a query-string word names.
    pub fn from_str(s: &str) -> (r: Option<ListArticleSortPolicy>)
        ensures
            r == (if s@ == "newest"@ { Some(ListArticleSortPolicy::Newest) }
                else if s@ == "oldest"@ { Some(ListArticleSortPolicy::Oldest) }
                else if s@ == "recent_updated"@ { Some(ListArticleSortPolicy::RecentUpdated) }
                else if s@ == "least_recently_updated"@ {
                    Some(ListArticleSortPolicy::LeastRecentlyUpdated)
                }
                else { None::<ListArticleSortPolicy> }),
    {
        let v = str_to_chars(s);
        if chars_eq_str(&v, "newest") {
            Some(ListArticleSortPolicy::Newest)
        } else if chars_eq_str(&v, "oldest") {
            Some(ListArticleSortPolicy::Oldest)
        } else if chars_eq_str(&v, "recent_updated") {
            Some(ListArticleSortPolicy::RecentUpdated)
        } else if chars_eq_str(&v, "least_recently_updated") {
            Some(ListArticleSortPolicy::LeastRecentlyUpdated)
        } else {
            None
        }
    }
}

pub struct ListArticleRequestQuery {
    pub policy: Option<ListArticleSortPolicy>,
}

/// An id together with its record, flattened for a listing response.
pub struct FlatId<Id, Entity> {
    pub id: Id,
    pub entity: Entity,
}

pub struct ListArticleResponse(pub Vec<FlatId<ArticleId, Article>>);

pub struct ChangeArticleIdRequestQuery {
    pub from: ArticleId,
    pub to: ArticleId,
}

pub struct UpdateVisibilityPayload {
    pub visibility: Visibility,
}

/// The ids a listing matched, without duplicates.
pub struct ArticleIdSet(pub Vec<ArticleId>);

/// The extremes over the matched records.
pub struct ArticleIdSetMetadata {
    pub oldest_created_at: Option<crate::timestamp::Timestamp>,
    pub newest_updated_at: Option<crate::timestamp::Timestamp>,
}

/// A year of the common era; never zero.
#[derive(Copy, Clone, Debug, PartialEq, Eq, Structural)]
pub struct AnnoDominiYear(u32);

impl AnnoDominiYear {
    /// The year's number.
    pub closed spec fn spec_value(self) -> u32 {
        self.0
    }

    pub closed spec fn wf(self) -> bool {
        self.0 >= 1
    }

    pub fn try_from(value: u32) -> (r: Result<Self, ()>)
        ensures
            match r {
                Ok(y) => value >= 1 && y.spec_value() == value && y.wf(),
                Err(()) => value == 0,
            },
    {
        if value >= 1 {
            Ok(Self(value))
        } else {
            Err(())
        }
    }

    pub fn into_inner(self) -> (r: u32)
        ensures
            r == self.spec_value(),
    {
        self.0
    }
}

/// A month written with exactly two digits, `01` through `12`.
#[derive(Copy, Clone, Debug, PartialEq, Eq, Structural)]
pub struct OneOriginTwoDigitsMonth(u8);

impl OneOriginTwoDigitsMonth {
    /// The month's number.
    pub closed spec fn spec_value(self) -> u8 {
        self.0
    }

    pub closed spec fn wf(self) -> bool {
        1 <= self.0 <= 12
    }

    pub fn try_from(value: u8) -> (r: Result<Self, ()>)
        ensures
            match r {
                Ok(m) => 1 <= value <= 12 && m.spec_value() == value && m.wf(),
                Err(()) => value == 0 || value > 12,
            },
    {
        if 1 <= value && value <= 12 {
            Ok(Self(value))
        } else {
            Err(())
        }
    }

    /// The month a zero-padded two-digit numeral names; anything else is
    /// refused.
    pub fn from_str(s: &str) -> (r: Result<Self, ()>)
        ensures
            match r {
                Ok(m) => {
                    &&& s@.len() == 2
                    &&& crate::numeral::is_dec_digit(s@[0])
                    &&& crate::numeral::is_dec_digit(s@[1])
                    &&& m.spec_value() == crate::numeral::dec_val(s@[0]) * 10
                        + crate::numeral::dec_val(s@[1])
                    &&& 1 <= m.spec_value() <= 12
                    &&& m.wf()
                },
                Err(()) => !(s@.len() == 2
                    && crate::numeral::is_dec_digit(s@[0])
                    && crate::numeral::is_dec_digit(s@[1])
                    && 1 <= crate::numeral::dec_val(s@[0]) * 10 + crate::numeral::dec_val(s@[1]) <= 12),
            },
    {
        if s.unicode_len() != 2 {
            return Err(());
        }
        let d1 = dec_val_exec(s.get_char(0));
        let d2 = dec_val_exec(s.get_char(1));
        if d1 >= 10 || d2 >= 10 {
            return Err(());
        }
        let v = d1 * 10 + d2;
        if 1 <= v && v <= 12 {
            Ok(Self(v as u8))
        } else {
            Err(())
        }
    }

    pub fn into_inner(self) -> (r: u8)
        ensures
            r == self.spec_value(),
    {
        self.0
    }
}

} // verus!

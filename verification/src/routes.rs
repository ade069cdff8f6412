//! What the request handlers decide before and after they touch storage:
//! which page is asked for, and which error a failure is answered with.

use vstd::prelude::*;

use crate::errors::AuthError;

verus! {

/// Posts that one page of a listing advances by.
pub const POSTS_PER_PAGE: i64 = 15;

/// Posts that one page of a listing loads at most.
pub const PAGE_LIMIT: i64 = 20;

/// First page whose offset a query can carry.
pub const MIN_PAGE: i64 = -614891469123651719;

/// Last page whose offset a query can carry.
pub const MAX_PAGE: i64 = 614891469123651721;

/// HTTP status of a missing post.
pub const STATUS_NOT_FOUND: u16 = 404;

/// HTTP status of an internal failure.
pub const STATUS_INTERNAL_SERVER_ERROR: u16 = 500;

/// What a handler answers with when it fails.
#[derive(Clone, Copy, Debug, PartialEq, Eq, Structural)]
pub enum ServerError {
    InternalError,
    PostNotFound,
}

/// Why a query on the store failed.
#[derive(Clone, Copy, Debug, PartialEq, Eq, Structural)]
pub enum DatabaseError {
    /// No connection could be had from the pool.
    ConnectionPoolError,
    /// The query found nothing.
    NotFound,
    /// The query could not be run.
    QueryError,
}

impl ServerError {
    /// The status that the error is answered with.
    pub open spec fn spec_status_code(self) -> u16 {
        match self {
            ServerError::PostNotFound => STATUS_NOT_FOUND,
            ServerError::InternalError => STATUS_INTERNAL_SERVER_ERROR,
        }
    }

    /// The text that the error is answered with.
    pub open spec fn spec_message(self) -> Seq<char> {
        match self {
            ServerError::InternalError => "An internal error ocurred. Please try again later."@,
            ServerError::PostNotFound => "The post you are looking for does not exist."@,
        }
    }

    pub fn status_code(&self) -> (code: u16)
        ensures
            code == self.spec_status_code(),
    {
        match self {
            ServerError::PostNotFound => STATUS_NOT_FOUND,
            ServerError::InternalError => STATUS_INTERNAL_SERVER_ERROR,
        }
    }

    pub fn message(&self) -> (text: String)
        ensures
            text@ == self.spec_message(),
    {
        match self {
            ServerError::InternalError => "An internal error ocurred. Please try again later.".to_owned(),
            ServerError::PostNotFound => "The post you are looking for does not exist.".to_owned(),
        }
    }

    /// The error that a failed query for one post is answered with: a post
    /// that is not there is reported as such, everything else is internal.
    pub open spec fn spec_for_post(failure: DatabaseError) -> ServerError {
        match failure {
            DatabaseError::NotFound => ServerError::PostNotFound,
            _ => ServerError::InternalError,
        }
    }

    pub fn for_post(failure: DatabaseError) -> (error: ServerError)
        ensures
            error == Self::spec_for_post(failure),
    {
        match failure {
            DatabaseError::ConnectionPoolError => ServerError::InternalError,
            DatabaseError::NotFound => ServerError::PostNotFound,
            DatabaseError::QueryError => ServerError::InternalError,
        }
    }

    /// The error that a failed query for a listing is answered with: always
    /// an internal one.
    pub fn for_listing(failure: DatabaseError) -> (error: ServerError)
        ensures
            error == ServerError::InternalError,
    {
        ServerError::InternalError
    }
}

/// The query of a listing.
#[derive(Clone, Copy, Debug, PartialEq, Eq, Structural)]
pub struct PageQuery {
    pub page: Option<i64>,
}

/// The query of a search by tag.
#[derive(Clone, Debug, PartialEq, Eq)]
pub struct SearchQuery {
    pub tag: Option<String>,
    pub page: Option<i64>,
}

/// The page that a query asks for: the first where it names none.
pub open spec fn spec_page_number(page: Option<i64>) -> i64 {
    match page {
        Some(p) => p,
        None => 1,
    }
}

/// How many posts come before page `page`, where that number is one that a
/// query can carry.
pub open spec fn spec_page_offset(page: i64) -> Option<i64> {
    let offset = (page - 1) * POSTS_PER_PAGE;
    if i64::MIN <= offset <= i64::MAX {
        Some(offset as i64)
    } else {
        None
    }
}

/// How many whole pages `total_posts` posts fill.
pub open spec fn spec_total_pages(total_posts: i64) -> i64 {
    if total_posts >= 0 {
        (total_posts as int / POSTS_PER_PAGE as int) as i64
    } else {
        (-((-total_posts) as int / POSTS_PER_PAGE as int)) as i64
    }
}

/// The page that a query asks for.
pub fn page_number(page: Option<i64>) -> (number: i64)
    ensures
        number == spec_page_number(page),
{
    match page {
        Some(p) => p,
        None => 1,
    }
}

/// The offset of page `page`, or `None` where it cannot be counted.
pub fn page_offset(page: i64) -> (offset: Option<i64>)
    ensures
        offset == spec_page_offset(page),
{
    if page < MIN_PAGE || page > MAX_PAGE {
        None
    } else {
        Some((page - 1) * POSTS_PER_PAGE)
    }
}

/// How many whole pages `total_posts` posts fill.
pub fn total_pages(total_posts: i64) -> (pages: i64)
    ensures
        pages == spec_total_pages(total_posts),
{
    total_posts / POSTS_PER_PAGE
}

impl PageQuery {
    /// The page asked for.
    pub fn page_number(&self) -> (number: i64)
        ensures
            number == spec_page_number(self.page),
    {
        page_number(self.page)
    }

    /// The offset of the page asked for.
    pub fn offset(&self) -> (offset: Option<i64>)
        ensures
            offset == spec_page_offset(spec_page_number(self.page)),
    {
        page_offset(page_number(self.page))
    }
}

impl SearchQuery {
    /// The page asked for.
    pub fn page_number(&self) -> (number: i64)
        ensures
            number == spec_page_number(self.page),
    {
        page_number(self.page)
    }

    /// The offset of the page asked for.
    pub fn offset(&self) -> (offset: Option<i64>)
        ensures
            offset == spec_page_offset(spec_page_number(self.page)),
    {
        page_offset(page_number(self.page))
    }

    /// Whether the query names a tag, so that there is anything to look for.
    pub fn has_tag(&self) -> (named: bool)
        ensures
            named == self.tag is Some,
    {
        self.tag.is_some()
    }
}

impl ServerError {
    /// The error that a handler answers with when authentication could not
    /// be carried out at all. Failures of identity are no server errors: they
    /// are answered with [`AuthError::status_code`].
    pub open spec fn spec_for_auth(failure: AuthError) -> Option<ServerError> {
        if failure.is_internal() {
            Some(ServerError::InternalError)
        } else {
            None
        }
    }

    pub fn for_auth(failure: AuthError) -> (error: Option<ServerError>)
        ensures
            error == Self::spec_for_auth(failure),
            error is Some <==> failure.spec_status_code() == STATUS_INTERNAL_SERVER_ERROR,
    {
        match failure {
            AuthError::FetchFailed => Some(ServerError::InternalError),
            AuthError::HashingFailed => Some(ServerError::InternalError),
            _ => None,
        }
    }
}

} // verus!

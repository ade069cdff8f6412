//! What a new post holds before it is stored.

use vstd::prelude::*;

verus! {

/// The lowercase equivalent of a text, as `str::to_lowercase` gives it.
pub uninterp spec fn lowercase_of(text: Seq<char>) -> Seq<char>;

/// Calls `str::to_lowercase`.
///
/// Trusted: the result is a function of the text.
#[verifier::external_body]
fn lowercase(text: &str) -> (lower: String)
    ensures
        lower@ == lowercase_of(text@),
{
    text.to_lowercase()
}

/// Calls `str::replace` to put a hyphen in place of every space.
///
/// Trusted: every space is replaced and nothing else is touched.
#[verifier::external_body]
fn hyphenate(text: &str) -> (hyphenated: String)
    ensures
        hyphenated@ == spec_hyphenate(text@),
{
    text.replace(" ", "-")
}

/// A text with a hyphen in place of every space.
pub open spec fn spec_hyphenate(text: Seq<char>) -> Seq<char> {
    text.map_values(
        |c: char|
            if c == ' ' {
                '-'
            } else {
                c
            },
    )
}

/// The slug of a title: the title in lower case, with a hyphen in place of
/// every space.
pub open spec fn spec_slug(title: Seq<char>) -> Seq<char> {
    spec_hyphenate(lowercase_of(title))
}

/// Makes the slug of a title.
pub fn title_to_slug(title: &str) -> (slug: String)
    ensures
        slug@ == spec_slug(title@),
{
    let lower = lowercase(title);
    hyphenate(lower.as_str())
}

/// A post that is about to be stored. Times are seconds since the epoch.
#[derive(Clone, Debug, PartialEq, Eq)]
pub struct NewPost {
    pub title: String,
    pub slug: String,
    pub body: String,
    pub introduction: Option<String>,
    pub published: bool,
    pub created_at: i64,
    pub updated_at: i64,
    pub published_at: Option<i64>,
}

impl NewPost {
    /// The post that is created at `now`: its slug is made of its title, it
    /// was updated when it was created, and it was published then too where
    /// it is published at all.
    pub fn new(title: &str, body: &str, introduction: Option<String>, published: bool, now: i64) -> (post:
        NewPost)
        ensures
            post.title@ == title@,
            post.slug@ == spec_slug(title@),
            post.body@ == body@,
            post.introduction == introduction,
            post.published == published,
            post.created_at == now,
            post.updated_at == now,
            post.published_at == (if published {
                Some(now)
            } else {
                None
            }),
    {
        let published_at = if published {
            Some(now)
        } else {
            None
        };
        NewPost {
            title: title.to_owned(),
            slug: title_to_slug(title),
            body: body.to_owned(),
            introduction,
            published,
            created_at: now,
            updated_at: now,
            published_at,
        }
    }
}

} // verus!

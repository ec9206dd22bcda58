//! The target of a link: a URL or a local path, without its fragment.

use vstd::prelude::*;

use crate::error::MsgError;
use crate::text::chars_of;
use crate::text::find_char;
use crate::text::option_text;
use crate::text::same_text;
use crate::text::string_of_range;

verus! {

/// A normalized link target. `Url` holds an absolute URL as it is written
/// out in full, `Path` a local path; neither holds a fragment.
#[derive(Debug, PartialEq, Eq, Hash)]
pub enum Link {
    Url(String),
    Path(String),
}

/// What a [`Link`] holds.
pub ghost enum LinkView {
    Url(Seq<char>),
    Path(Seq<char>),
}

impl LinkView {
    /// The target as text.
    pub open spec fn text(self) -> Seq<char> {
        match self {
            LinkView::Url(href) => href,
            LinkView::Path(path) => path,
        }
    }
}

impl View for Link {
    type V = LinkView;

    open spec fn view(&self) -> LinkView {
        match self {
            Link::Url(href) => LinkView::Url(href@),
            Link::Path(path) => LinkView::Path(path@),
        }
    }
}

impl Link {
    /// The target as text.
    pub fn to_string(&self) -> (s: String)
        ensures
            s@ == self@.text(),
    {
        match self {
            Link::Url(href) => href.clone(),
            Link::Path(path) => path.clone(),
        }
    }

    /// Whether two links name the same target.
    pub fn same(&self, other: &Link) -> (same: bool)
        ensures
            same == (self@ == other@),
    {
        match (self, other) {
            (Link::Url(a), Link::Url(b)) => same_text(a.as_str(), b.as_str()),
            (Link::Path(a), Link::Path(b)) => same_text(a.as_str(), b.as_str()),
            _ => false,
        }
    }
}

impl Clone for Link {
    fn clone(&self) -> (copy: Link)
        ensures
            copy@ == self@,
    {
        match self {
            Link::Url(href) => Link::Url(href.clone()),
            Link::Path(path) => Link::Path(path.clone()),
        }
    }
}

// ---------------------------------------------------------------------------
// Fragments
// ---------------------------------------------------------------------------

/// Whether `i` is the position of the first `#` in `s`.
pub open spec fn is_first_hash(s: Seq<char>, i: int) -> bool {
    0 <= i < s.len() && s[i] == '#' && !s.take(i).contains('#')
}

/// A link parted at its first `#`: what stands before it, and the fragment
/// behind it if there is a `#`.
pub open spec fn parted(s: Seq<char>) -> (Seq<char>, Option<Seq<char>>) {
    if s.contains('#') {
        let i = choose|i: int| is_first_hash(s, i);
        (s.take(i), Some(s.skip(i + 1)))
    } else {
        (s, None)
    }
}

/// There is one first `#` at most.
pub proof fn lemma_first_hash_unique(s: Seq<char>, i: int, j: int)
    requires
        is_first_hash(s, i),
        is_first_hash(s, j),
    ensures
        i == j,
{
    if i < j {
        assert(s.take(j)[i] == '#');
    }
    if j < i {
        assert(s.take(i)[j] == '#');
    }
}

/// Parts `link` at its first `#`.
pub fn part(link: &str) -> (r: (String, Option<String>))
    ensures
        (r.0@, option_text(r.1)) == parted(link@),
{
    let chars = chars_of(link);
    match find_char(&chars, '#') {
        Some(pos) => {
            proof {
                assert(is_first_hash(link@, pos as int));
                assert(link@.contains('#'));
                let i = choose|i: int| is_first_hash(link@, i);
                lemma_first_hash_unique(link@, i, pos as int);
            }
            let before = string_of_range(&chars, 0, pos);
            let after = string_of_range(&chars, pos + 1, chars.len());
            (before, Some(after))
        },
        None => (link.to_owned(), None),
    }
}

/// Parts a path at its first `#`, where it has one.
pub fn split_fragment(path: &str) -> (r: Option<(String, String)>)
    ensures
        match r {
            Some(pair) => parted(path@) == (pair.0@, Some(pair.1@)),
            None => parted(path@) == (path@, None::<Seq<char>>),
        },
{
    match part(path) {
        (before, Some(fragment)) => Some((before, fragment)),
        (_, None) => None,
    }
}

// ---------------------------------------------------------------------------
// URLs
// ---------------------------------------------------------------------------

/// What the `url` crate makes of a link.
#[derive(Debug)]
pub enum UrlSyntax {
    /// An absolute URL, written out in full as the crate normalizes it.
    Absolute(String),
    /// No URL by itself: a reference that needs a base.
    Relative,
    /// Neither; the text says why.
    Invalid(String),
}

/// What a [`UrlSyntax`] holds.
pub ghost enum UrlSyntaxView {
    Absolute(Seq<char>),
    Relative,
    Invalid(Seq<char>),
}

impl View for UrlSyntax {
    type V = UrlSyntaxView;

    open spec fn view(&self) -> UrlSyntaxView {
        match self {
            UrlSyntax::Absolute(href) => UrlSyntaxView::Absolute(href@),
            UrlSyntax::Relative => UrlSyntaxView::Relative,
            UrlSyntax::Invalid(why) => UrlSyntaxView::Invalid(why@),
        }
    }
}

/// What `url::Url::parse` makes of `link`: the URL written out in full where
/// it accepts `link`, and of its errors `RelativeUrlWithoutBase` told apart
/// from the others, which are kept as their message.
pub uninterp spec fn url_syntax(link: Seq<char>) -> UrlSyntaxView;

/// Hands `link` to `url::Url::parse`.
#[verifier::external_body]
pub(crate) fn parse_url(link: &str) -> (syntax: UrlSyntax)
    ensures
        syntax@ == url_syntax(link@),
{
    match url::Url::parse(link) {
        Ok(url) => UrlSyntax::Absolute(url.into()),
        Err(url::ParseError::RelativeUrlWithoutBase) => UrlSyntax::Relative,
        Err(err) => UrlSyntax::Invalid(err.to_string()),
    }
}

// ---------------------------------------------------------------------------
// Paths, by the rules of `std::path` on the platform at hand
// ---------------------------------------------------------------------------

/// Whether `std::path::Path::is_absolute` holds of `path`.
pub uninterp spec fn is_absolute_path(path: Seq<char>) -> bool;

/// Whether `std::path::Path::has_root` holds of `path`.
pub uninterp spec fn has_root_path(path: Seq<char>) -> bool;

/// What is left of `path` for `std::path::Components` once the first
/// component has been taken.
pub uninterp spec fn path_after_first(path: Seq<char>) -> Seq<char>;

/// What `std::path::Path::join` makes of `base` and `path`.
pub uninterp spec fn joined_path(base: Seq<char>, path: Seq<char>) -> Seq<char>;

/// What `std::path::Path::with_file_name` makes of `path` and `name`.
pub uninterp spec fn path_with_file_name(path: Seq<char>, name: Seq<char>) -> Seq<char>;

/// Asks `std::path::Path::is_absolute`.
#[verifier::external_body]
pub(crate) fn path_is_absolute(path: &str) -> (absolute: bool)
    ensures
        absolute == is_absolute_path(path@),
{
    std::path::Path::new(path).is_absolute()
}

/// Asks `std::path::Path::has_root`.
#[verifier::external_body]
fn path_has_root(path: &str) -> (rooted: bool)
    ensures
        rooted == has_root_path(path@),
{
    std::path::Path::new(path).has_root()
}

/// Takes the first component from the `std::path::Components` of `path` and
/// gives what is left as a path.
#[verifier::external_body]
fn path_tail(path: &str) -> (rest: String)
    ensures
        rest@ == path_after_first(path@),
{
    let mut components = std::path::Path::new(path).components();
    components.next();
    components.as_path().to_string_lossy().into_owned()
}

/// Joins with `std::path::Path::join`.
#[verifier::external_body]
fn path_join(base: &str, path: &str) -> (joined: String)
    ensures
        joined@ == joined_path(base@, path@),
{
    std::path::Path::new(base).join(path).to_string_lossy().into_owned()
}

/// Replaces the file name with `std::path::Path::with_file_name`.
#[verifier::external_body]
fn path_replace_file_name(path: &str, name: &str) -> (replaced: String)
    ensures
        replaced@ == path_with_file_name(path@, name@),
{
    std::path::Path::new(path).with_file_name(name).to_string_lossy().into_owned()
}

/// `path` with its leading components taken away for as long as it has a
/// root, in `steps` steps at most.
pub open spec fn without_root(path: Seq<char>, steps: nat) -> Seq<char>
    decreases steps,
{
    if steps == 0 || !has_root_path(path) {
        path
    } else {
        without_root(path_after_first(path), (steps - 1) as nat)
    }
}

/// `path` without its root. No more components are taken than `path` has
/// characters.
pub fn as_relative(path: &str) -> (relative: String)
    ensures
        relative@ == without_root(path@, path@.len()),
{
    let mut steps: usize = path.unicode_len();
    let mut rest: String = path.to_owned();
    while steps > 0 && path_has_root(rest.as_str())
        invariant
            without_root(path@, path@.len()) == without_root(rest@, steps as nat),
        decreases steps,
    {
        rest = path_tail(rest.as_str());
        steps -= 1;
    }
    rest
}

/// `path` below `base_path`, by the path's own components.
pub fn join_absolute(base_path: &str, path: &str) -> (joined: String)
    ensures
        joined@ == joined_path(base_path@, without_root(path@, path@.len())),
{
    let relative = as_relative(path);
    path_join(base_path, relative.as_str())
}

/// The local file that the reference `path` names, for a link found in the
/// document `doc_path`: an absolute reference counts from `base_path`, or
/// from the root of the file system where there is no base, so that it
/// stays as it is written; an empty reference is the document itself; any
/// other is a sibling of the document.
pub open spec fn local_target(
    path: Seq<char>,
    doc_path: Seq<char>,
    base_path: Option<Seq<char>>,
) -> Seq<char> {
    if is_absolute_path(path) {
        match base_path {
            Some(base) => joined_path(base, without_root(path, path.len())),
            None => path,
        }
    } else if path.len() == 0 {
        doc_path
    } else {
        path_with_file_name(doc_path, path)
    }
}

impl Link {
    /// The link for an absolute URL written out in full, and its fragment.
    /// The URL loses the fragment.
    pub fn from_url(href: &str) -> (r: (Link, Option<String>))
        ensures
            r.0@ == LinkView::Url(parted(href@).0),
            option_text(r.1) == parted(href@).1,
    {
        let (target, fragment) = part(href);
        (Link::Url(target), fragment)
    }

    /// The link for a local reference found in the document `doc_path`, and
    /// its fragment.
    pub fn path(link: &str, doc_path: &str, base_path: &Option<String>) -> (r: Result<
        (Link, Option<String>),
        MsgError,
    >)
        ensures
            r matches Ok(pair) && pair.0@ == LinkView::Path(
                local_target(parted(link@).0, doc_path@, option_text(*base_path)),
            ) && option_text(pair.1) == parted(link@).1,
    {
        let (path, fragment) = part(link);
        let target = if path_is_absolute(path.as_str()) {
            match base_path {
                Some(base) => join_absolute(base.as_str(), path.as_str()),
                None => path.clone(),
            }
        } else if path.as_str().is_empty() {
            doc_path.to_owned()
        } else {
            path_replace_file_name(doc_path, path.as_str())
        };
        Ok((Link::Path(target), fragment))
    }
}


} // verus!

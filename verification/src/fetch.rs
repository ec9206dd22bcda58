//! Fetching the document behind a link, as a dialogue: this module decides,
//! the caller touches the disk and the network and reports what happened.

use std::sync::Arc;

use vstd::prelude::*;

use crate::charset::format_of;
use crate::charset::mime_parsed;
use crate::charset::ContentType;
use crate::charset::ContentTypeView;
use crate::error::Error;
use crate::error::ErrorView;
use crate::error::Tag;
use crate::link::is_absolute_path;
use crate::link::path_is_absolute;
use crate::link::Link;
use crate::link::LinkView;
use crate::linky::parse_outcome;
use crate::linky::Document;
use crate::slug::GithubId;
use crate::text::chars_of;
use crate::text::decimal;
use crate::text::decimal_digits;
use crate::text::find_char;
use crate::text::join2;
use crate::text::option_text;
use crate::text::same_text;
use crate::text::string_of_range;
use crate::text::texts;

verus! {

/// Why the disk refused: whether the file was not found, and the messages
/// of the error and of its causes.
#[derive(Debug)]
pub struct IoFailure {
    pub not_found: bool,
    pub cause: Vec<String>,
}

/// Why a request failed: whether it timed out, and the messages of the
/// error and of its causes.
#[derive(Debug)]
pub struct TransportFailure {
    pub timed_out: bool,
    pub cause: Vec<String>,
}

/// One hop of a redirected request.
#[derive(Debug)]
pub struct Redirect {
    pub status: u16,
    pub url: String,
}

/// The hops of the request at hand, in the order in which they were taken.
#[derive(Debug)]
pub struct RedirectLog {
    hops: Vec<Redirect>,
}

impl View for RedirectLog {
    type V = Seq<(u16, Seq<char>)>;

    closed spec fn view(&self) -> Seq<(u16, Seq<char>)> {
        hops(self.hops@)
    }
}

impl RedirectLog {
    /// A log without hops.
    pub fn new() -> (log: RedirectLog)
        ensures
            log@ == Seq::<(u16, Seq<char>)>::empty(),
    {
        let log = RedirectLog { hops: Vec::new() };
        assert(log@ =~= Seq::<(u16, Seq<char>)>::empty());
        log
    }

    /// Forgets the hops of the request before: a new request begins.
    pub fn clear(&mut self)
        ensures
            final(self)@ == Seq::<(u16, Seq<char>)>::empty(),
    {
        self.hops.clear();
        assert(self@ =~= Seq::<(u16, Seq<char>)>::empty());
    }

    /// Takes note of one more hop: the status that redirected, and where to.
    pub fn record(&mut self, status: u16, url: String)
        ensures
            final(self)@ == old(self)@.push((status, url@)),
    {
        self.hops.push(Redirect { status, url });
        assert(self@ =~= old(self)@.push((status, url@)));
    }

    /// The hops taken so far, first to last.
    pub fn hops(&self) -> (taken: Vec<Redirect>)
        ensures
            hops(taken@) == self@,
    {
        let mut taken: Vec<Redirect> = Vec::new();
        let mut i: usize = 0;
        while i < self.hops.len()
            invariant
                i <= self.hops.len(),
                hops(taken@) == self@.take(i as int),
            decreases self.hops.len() - i,
        {
            let hop = &self.hops[i];
            let ghost before = hops(taken@);
            taken.push(Redirect { status: hop.status, url: hop.url.clone() });
            assert(hops(taken@) =~= before.push((hop.status, hop.url@)));
            assert(self@[i as int] == (hop.status, hop.url@));
            assert(self@.take(i + 1) =~= self@.take(i as int).push(self@[i as int]));
            i += 1;
        }
        assert(self@.take(self.hops.len() as int) =~= self@);
        taken
    }
}

/// The `Content-Type` header of a response.
#[derive(Debug)]
pub enum HeaderText {
    /// The response has none.
    Missing,
    /// It is not text; the messages say why.
    Unreadable(Vec<String>),
    /// Its value.
    Text(String),
}

/// What a [`HeaderText`] holds.
pub ghost enum HeaderView {
    Missing,
    Unreadable(Seq<Seq<char>>),
    Text(Seq<char>),
}

impl View for HeaderText {
    type V = HeaderView;

    open spec fn view(&self) -> HeaderView {
        match self {
            HeaderText::Missing => HeaderView::Missing,
            HeaderText::Unreadable(cause) => HeaderView::Unreadable(texts(cause@)),
            HeaderText::Text(text) => HeaderView::Text(text@),
        }
    }
}

/// What a list of redirects holds.
pub open spec fn hops(redirects: Seq<Redirect>) -> Seq<(u16, Seq<char>)> {
    Seq::new(redirects.len(), |i: int| (redirects[i].status, redirects[i].url@))
}

/// An error with the tag `tag` and nothing else.
pub open spec fn bare(tag: Tag) -> ErrorView {
    ErrorView { tag, msgs: Seq::empty(), cause: Seq::empty() }
}

/// The context line of one hop.
pub open spec fn redirect_line(hop: (u16, Seq<char>)) -> Seq<char> {
    "redirect("@ + decimal_digits(hop.0 as nat) + ") = "@ + hop.1
}

/// The error for a redirected request: it carries the status of the first
/// hop, and one line of context for each hop, the first hop added last so
/// that it is reported first.
pub open spec fn redirect_error(redirects: Seq<(u16, Seq<char>)>) -> ErrorView {
    ErrorView {
        tag: Tag::HttpStatus(redirects[0].0),
        msgs: Seq::new(
            redirects.len(),
            |i: int| redirect_line(redirects[redirects.len() - 1 - i]),
        ),
        cause: Seq::empty(),
    }
}

/// What the head of a response says about the document: its content type,
/// unless the status is no success, the request was redirected, or the
/// content type is missing or makes no sense.
pub open spec fn judged(status: u16, redirects: Seq<(u16, Seq<char>)>, header: HeaderView) -> Result<
    ContentTypeView,
    ErrorView,
> {
    if !(200 <= status < 300) {
        Err(bare(Tag::HttpStatus(status)))
    } else if redirects.len() > 0 {
        Err(redirect_error(redirects))
    } else {
        match header {
            HeaderView::Missing => Err(bare(Tag::NoMime)),
            HeaderView::Unreadable(cause) => Err(
                ErrorView { tag: Tag::HttpError, msgs: Seq::empty(), cause },
            ),
            HeaderView::Text(text) => match mime_parsed(text) {
                Ok(content_type) => Ok(content_type),
                Err(why) => Err(
                    ErrorView { tag: Tag::UnrecognizedMime, msgs: Seq::empty(), cause: seq![why] },
                ),
            },
        }
    }
}

/// Judges the head of a response. A redirect is never taken for the
/// document itself, wherever it led.
pub fn judge(status: u16, redirects: &Vec<Redirect>, content_type: HeaderText) -> (r: Result<
    ContentType,
    Error,
>)
    ensures
        match r {
            Ok(found) => judged(status, hops(redirects@), content_type@) == Ok::<
                ContentTypeView,
                ErrorView,
            >(found@),
            Err(e) => judged(status, hops(redirects@), content_type@) == Err::<
                ContentTypeView,
                ErrorView,
            >(e@),
        },
{
    if !(200 <= status && status < 300) {
        return Err(Tag::HttpStatus(status).as_error());
    }
    if redirects.len() > 0 {
        let ghost all = hops(redirects@);
        let ghost expected = redirect_error(all);
        let mut err = Tag::HttpStatus(redirects[0].status).as_error();
        let mut i: usize = redirects.len();
        assert(err@.msgs =~= expected.msgs.take(0));
        while i > 0
            invariant
                i <= redirects.len(),
                all == hops(redirects@),
                expected == redirect_error(all),
                err@.tag == expected.tag,
                err@.cause == expected.cause,
                err@.msgs == expected.msgs.take(redirects.len() - i),
            decreases i,
        {
            i -= 1;
            let hop = &redirects[i];
            let number = decimal(hop.status as usize);
            let head = join2("redirect(", number.as_str());
            let middle = join2(head.as_str(), ") = ");
            let line = join2(middle.as_str(), hop.url.as_str());
            proof {
                assert(line@ == redirect_line(all[i as int]));
                assert(expected.msgs[redirects.len() - 1 - i] == redirect_line(all[i as int]));
                assert(expected.msgs.take(redirects.len() - i) =~= expected.msgs.take(
                    redirects.len() - 1 - i,
                ).push(line@));
            }
            err = err.context(line);
        }
        assert(expected.msgs.take(redirects.len() as int) =~= expected.msgs);
        return Err(err);
    }
    match content_type {
        HeaderText::Missing => Err(Tag::NoMime.as_error()),
        HeaderText::Unreadable(cause) => Err(Error::from_header(cause)),
        HeaderText::Text(text) => ContentType::parse(text.as_str()),
    }
}

// ---------------------------------------------------------------------------
// Schemes and percent-encoding
// ---------------------------------------------------------------------------

/// Whether `i` is the position of the first colon in `s`.
pub open spec fn is_first_colon(s: Seq<char>, i: int) -> bool {
    0 <= i < s.len() && s[i] == ':' && !s.take(i).contains(':')
}

/// The scheme of a URL written out in full: what stands before its first
/// colon. Text without a colon has none.
pub open spec fn scheme(href: Seq<char>) -> Option<Seq<char>> {
    if href.contains(':') {
        Some(href.take(choose|i: int| is_first_colon(href, i)))
    } else {
        None
    }
}

/// Whether a URL is one that is fetched over HTTP.
pub open spec fn is_web(href: Seq<char>) -> bool {
    scheme(href) == Some("http"@) || scheme(href) == Some("https"@)
}

/// Whether the URL `href` has the scheme `http` or `https`.
pub fn has_web_scheme(href: &str) -> (web: bool)
    ensures
        web == is_web(href@),
{
    let chars = chars_of(href);
    match find_char(&chars, ':') {
        Some(pos) => {
            proof {
                assert(is_first_colon(href@, pos as int));
                assert(href@.contains(':'));
                let i = choose|i: int| is_first_colon(href@, i);
                if i < pos {
                    assert(href@.take(pos as int)[i] == ':');
                }
                if pos < i {
                    assert(href@.take(i)[pos as int] == ':');
                }
                assert(href@.subrange(0, pos as int) == href@.take(pos as int));
            }
            let found = string_of_range(&chars, 0, pos);
            same_text(found.as_str(), "http") || same_text(found.as_str(), "https")
        },
        None => false,
    }
}

/// What `urlencoding::decode` makes of `text`: the text with every
/// percent-encoded byte put back, where the result is UTF-8.
pub uninterp spec fn percent_decoded(text: Seq<char>) -> Option<Seq<char>>;

/// Hands `text` to `urlencoding::decode`.
#[verifier::external_body]
fn percent_decode(text: &str) -> (decoded: Option<String>)
    ensures
        option_text(decoded) == percent_decoded(text@),
{
    urlencoding::decode(text).ok()
}

// ---------------------------------------------------------------------------
// The dialogue
// ---------------------------------------------------------------------------

/// What the caller reports.
#[derive(Debug)]
pub enum Event {
    /// Nothing yet: the fetch begins.
    Start,
    /// Whether the path that was asked about is a directory.
    IsDirectory(bool),
    /// The file could not be opened.
    OpenFailed(IoFailure),
    /// The bytes of the file, or of the body of the response.
    Content(Vec<u8>),
    /// Reading the file or the body failed.
    ReadFailed(IoFailure),
    /// The request failed.
    RequestFailed(TransportFailure),
    /// The head of the response: its status, the hops that led to it in the
    /// order in which they were taken, and its content type.
    Response { status: u16, redirects: Vec<Redirect>, content_type: HeaderText },
}

/// What an [`Event`] holds.
pub ghost enum EventView {
    Start,
    IsDirectory(bool),
    OpenFailed(bool, Seq<Seq<char>>),
    Content(Seq<u8>),
    ReadFailed(bool, Seq<Seq<char>>),
    RequestFailed(bool, Seq<Seq<char>>),
    Response(u16, Seq<(u16, Seq<char>)>, HeaderView),
}

impl View for Event {
    type V = EventView;

    open spec fn view(&self) -> EventView {
        match self {
            Event::Start => EventView::Start,
            Event::IsDirectory(b) => EventView::IsDirectory(*b),
            Event::OpenFailed(f) => EventView::OpenFailed(f.not_found, texts(f.cause@)),
            Event::Content(bytes) => EventView::Content(bytes@),
            Event::ReadFailed(f) => EventView::ReadFailed(f.not_found, texts(f.cause@)),
            Event::RequestFailed(f) => EventView::RequestFailed(f.timed_out, texts(f.cause@)),
            Event::Response { status, redirects, content_type } => EventView::Response(
                *status,
                hops(redirects@),
                content_type@,
            ),
        }
    }
}

/// What the caller is asked to do next.
#[derive(Debug)]
pub enum Action {
    /// Say whether this path is a directory.
    Stat(String),
    /// Open this file and read it whole.
    Open(String),
    /// Request this URL with GET and report the head of the response.
    Get(String),
    /// Read the body of the response.
    ReadBody,
    /// Nothing: this is the result.
    Done(Result<Document, Arc<Error>>),
}

/// What an [`Action`] holds.
pub ghost enum ActionView {
    Stat(Seq<char>),
    Open(Seq<char>),
    Get(Seq<char>),
    ReadBody,
    Done(Result<Set<Seq<char>>, ErrorView>),
}

impl View for Action {
    type V = ActionView;

    open spec fn view(&self) -> ActionView {
        match self {
            Action::Stat(path) => ActionView::Stat(path@),
            Action::Open(path) => ActionView::Open(path@),
            Action::Get(url) => ActionView::Get(url@),
            Action::ReadBody => ActionView::ReadBody,
            Action::Done(Ok(document)) => ActionView::Done(Ok(document@)),
            Action::Done(Err(e)) => ActionView::Done(Err(e@)),
        }
    }
}

/// How far a fetch has come.
pub ghost enum Stage {
    /// Not begun.
    Fresh,
    /// Waiting to hear whether the path is a directory.
    Statting,
    /// Waiting for the file; `retried` once the percent-decoded path is
    /// being tried.
    Opening { retried: bool },
    /// Waiting for the head of the response.
    Requesting,
    /// Waiting for the body of a response of this content type.
    Reading(ContentTypeView),
    /// Over.
    Finished,
}

/// What a [`Fetch`] holds.
pub ghost struct FetchView {
    pub link: LinkView,
    pub urldecode: bool,
    pub stage: Stage,
}

/// `e` with the link as one more line of context.
pub open spec fn with_link(e: ErrorView, link: LinkView) -> ErrorView {
    ErrorView { msgs: e.msgs.push("link = "@ + link.text()), ..e }
}

/// The end of a fetch: the document, or the error with the link as its
/// outermost context.
pub open spec fn finish(outcome: Result<Set<Seq<char>>, ErrorView>, link: LinkView) -> (
    Stage,
    ActionView,
) {
    match outcome {
        Ok(ids) => (Stage::Finished, ActionView::Done(Ok(ids))),
        Err(e) => (Stage::Finished, ActionView::Done(Err(with_link(e, link)))),
    }
}

/// The error for a failure of the disk.
pub open spec fn io_error(not_found: bool, cause: Seq<Seq<char>>) -> ErrorView {
    ErrorView {
        tag: if not_found {
            Tag::NoDocument
        } else {
            Tag::IoError
        },
        msgs: Seq::empty(),
        cause,
    }
}

/// The error for a failure of the request.
pub open spec fn transport_error(timed_out: bool, cause: Seq<Seq<char>>) -> ErrorView {
    ErrorView {
        tag: if timed_out {
            Tag::Timeout
        } else {
            Tag::HttpError
        },
        msgs: Seq::empty(),
        cause,
    }
}

/// The content type that local files are read with.
pub open spec fn markdown_type() -> ContentTypeView {
    ContentTypeView { type_: "text"@, subtype: "markdown"@, charset: Some("utf-8"@) }
}

/// The rules of fetching: what follows on `event` at the stage of `fetch`,
/// where anything is expected to happen at that stage.
///
/// A local path has to be absolute and must not be a directory. If the file
/// cannot be opened and percent-decoding is wanted, the decoded path is
/// tried once. A local file is read as Markdown. A URL has to be fetched
/// over HTTP; the head of the response is judged, the body is read only
/// where it is HTML or Markdown, and a content type that is not understood
/// gives a document without anchors of its own.
pub open spec fn react(fetch: FetchView, event: EventView) -> Option<(Stage, ActionView)> {
    match (fetch.stage, event) {
        (Stage::Fresh, EventView::Start) => Some(
            match fetch.link {
                LinkView::Path(path) => if !is_absolute_path(path) {
                    finish(Err(bare(Tag::Absolute)), fetch.link)
                } else {
                    (Stage::Statting, ActionView::Stat(path))
                },
                LinkView::Url(href) => if !is_web(href) {
                    finish(Err(bare(Tag::Protocol)), fetch.link)
                } else {
                    (Stage::Requesting, ActionView::Get(href))
                },
            },
        ),
        (Stage::Statting, EventView::IsDirectory(is_dir)) => Some(
            if is_dir {
                finish(Err(bare(Tag::Directory)), fetch.link)
            } else {
                (Stage::Opening { retried: false }, ActionView::Open(fetch.link.text()))
            },
        ),
        (Stage::Opening { retried }, EventView::OpenFailed(not_found, cause)) => Some(
            if !retried && fetch.urldecode && percent_decoded(fetch.link.text()) is Some {
                (
                    Stage::Opening { retried: true },
                    ActionView::Open(percent_decoded(fetch.link.text())->0),
                )
            } else {
                finish(Err(io_error(not_found, cause)), fetch.link)
            },
        ),
        (Stage::Opening { retried }, EventView::Content(bytes)) => Some(
            finish(parse_outcome(bytes, markdown_type()), fetch.link),
        ),
        (Stage::Opening { retried }, EventView::ReadFailed(not_found, cause)) => Some(
            finish(Err(io_error(not_found, cause)), fetch.link),
        ),
        (Stage::Requesting, EventView::RequestFailed(timed_out, cause)) => Some(
            finish(Err(transport_error(timed_out, cause)), fetch.link),
        ),
        (Stage::Requesting, EventView::Response(status, redirects, header)) => Some(
            match judged(status, redirects, header) {
                Err(e) => finish(Err(e), fetch.link),
                Ok(content_type) => if format_of(content_type) is Some {
                    (Stage::Reading(content_type), ActionView::ReadBody)
                } else {
                    finish(parse_outcome(Seq::empty(), content_type), fetch.link)
                },
            },
        ),
        (Stage::Reading(content_type), EventView::Content(bytes)) => Some(
            finish(parse_outcome(bytes, content_type), fetch.link),
        ),
        (Stage::Reading(content_type), EventView::ReadFailed(not_found, cause)) => Some(
            finish(Err(io_error(not_found, cause)), fetch.link),
        ),
        _ => None,
    }
}

/// The stages as the fetch keeps them.
enum Progress {
    Fresh,
    Statting,
    Opening { retried: bool },
    Requesting,
    Reading(ContentType),
    Finished,
}

/// One fetch of one link.
pub struct Fetch {
    link: Link,
    urldecode: bool,
    progress: Progress,
}

impl View for Fetch {
    type V = FetchView;

    closed spec fn view(&self) -> FetchView {
        FetchView {
            link: self.link@,
            urldecode: self.urldecode,
            stage: match self.progress {
                Progress::Fresh => Stage::Fresh,
                Progress::Statting => Stage::Statting,
                Progress::Opening { retried } => Stage::Opening { retried },
                Progress::Requesting => Stage::Requesting,
                Progress::Reading(content_type) => Stage::Reading(content_type@),
                Progress::Finished => Stage::Finished,
            },
        }
    }
}

/// The error `e` with the link as one more line of context, ready to be
/// shared.
fn fail(e: Error, link: &Link) -> (r: Result<Document, Arc<Error>>)
    ensures
        r matches Err(shared) && shared@ == with_link(e@, link@),
{
    let target = link.to_string();
    Err(Arc::new(e.context(join2("link = ", target.as_str()))))
}

/// The end of a fetch for the result `outcome` of reading a document.
fn conclude(outcome: Result<Document, Error>, link: &Link) -> (r: Result<Document, Arc<Error>>)
    ensures
        match outcome {
            Ok(d) => r matches Ok(d2) && d2@ == d@,
            Err(e) => r matches Err(shared) && shared@ == with_link(e@, link@),
        },
{
    match outcome {
        Ok(d) => Ok(d),
        Err(e) => fail(e, link),
    }
}

impl Fetch {
    /// A fetch of `link` that has not begun. With `urldecode`, a local path
    /// that cannot be opened is tried again with its percent-encoding
    /// undone.
    pub fn new(link: Link, urldecode: bool) -> (fetch: Fetch)
        ensures
            fetch@ == (FetchView { link: link@, urldecode, stage: Stage::Fresh }),
    {
        Fetch { link, urldecode, progress: Progress::Fresh }
    }

    /// Whether `event` is something that can happen at this stage.
    pub fn accepts(&self, event: &Event) -> (expected: bool)
        ensures
            expected == react(self@, event@) is Some,
    {
        match (&self.progress, event) {
            (Progress::Fresh, Event::Start) => true,
            (Progress::Statting, Event::IsDirectory(_)) => true,
            (Progress::Opening { .. }, Event::OpenFailed(_)) => true,
            (Progress::Opening { .. }, Event::Content(_)) => true,
            (Progress::Opening { .. }, Event::ReadFailed(_)) => true,
            (Progress::Requesting, Event::RequestFailed(_)) => true,
            (Progress::Requesting, Event::Response { .. }) => true,
            (Progress::Reading(_), Event::Content(_)) => true,
            (Progress::Reading(_), Event::ReadFailed(_)) => true,
            _ => false,
        }
    }

    /// Takes the fetch one step further if `event` can happen at this
    /// stage, and leaves it alone if not.
    pub fn advance(&mut self, event: Event, id_transform: &GithubId) -> (action: Option<Action>)
        ensures
            match action {
                Some(a) => react(old(self)@, event@) == Some((final(self)@.stage, a@)),
                None => react(old(self)@, event@) is None && final(self)@.stage == old(self)@.stage,
            },
            final(self)@.link == old(self)@.link,
            final(self)@.urldecode == old(self)@.urldecode,
    {
        if self.accepts(&event) {
            Some(self.step(event, id_transform))
        } else {
            None
        }
    }

    /// Takes the fetch one step further: says what is to be done after
    /// `event`, or what the fetch has come to.
    pub fn step(&mut self, event: Event, id_transform: &GithubId) -> (action: Action)
        requires
            react(old(self)@, event@) is Some,
        ensures
            react(old(self)@, event@) == Some((final(self)@.stage, action@)),
            final(self)@.link == old(self)@.link,
            final(self)@.urldecode == old(self)@.urldecode,
    {
        let target = self.link.to_string();
        match event {
            Event::Start => {
                match &self.link {
                    Link::Path(path) => {
                        if !path_is_absolute(path.as_str()) {
                            self.progress = Progress::Finished;
                            Action::Done(fail(Tag::Absolute.as_error(), &self.link))
                        } else {
                            self.progress = Progress::Statting;
                            Action::Stat(target)
                        }
                    },
                    Link::Url(href) => {
                        if !has_web_scheme(href.as_str()) {
                            self.progress = Progress::Finished;
                            Action::Done(fail(Tag::Protocol.as_error(), &self.link))
                        } else {
                            self.progress = Progress::Requesting;
                            Action::Get(target)
                        }
                    },
                }
            },
            Event::IsDirectory(is_dir) => {
                if is_dir {
                    self.progress = Progress::Finished;
                    Action::Done(fail(Tag::Directory.as_error(), &self.link))
                } else {
                    self.progress = Progress::Opening { retried: false };
                    Action::Open(target)
                }
            },
            Event::OpenFailed(failure) => {
                let retried = match &self.progress {
                    Progress::Opening { retried } => *retried,
                    _ => true,
                };
                let again = if !retried && self.urldecode {
                    percent_decode(target.as_str())
                } else {
                    None
                };
                match again {
                    Some(decoded) => {
                        self.progress = Progress::Opening { retried: true };
                        Action::Open(decoded)
                    },
                    None => {
                        self.progress = Progress::Finished;
                        Action::Done(
                            fail(Error::from_io(failure.not_found, failure.cause), &self.link),
                        )
                    },
                }
            },
            Event::ReadFailed(failure) => {
                self.progress = Progress::Finished;
                Action::Done(fail(Error::from_io(failure.not_found, failure.cause), &self.link))
            },
            Event::RequestFailed(failure) => {
                self.progress = Progress::Finished;
                Action::Done(
                    fail(Error::from_transport(failure.timed_out, failure.cause), &self.link),
                )
            },
            Event::Response { status, redirects, content_type } => {
                match judge(status, &redirects, content_type) {
                    Err(e) => {
                        self.progress = Progress::Finished;
                        Action::Done(fail(e, &self.link))
                    },
                    Ok(found) => {
                        if found.format().is_some() {
                            self.progress = Progress::Reading(found);
                            Action::ReadBody
                        } else {
                            let nothing: Vec<u8> = Vec::new();
                            let outcome = Document::parse(nothing.as_slice(), &found, id_transform);
                            self.progress = Progress::Finished;
                            Action::Done(conclude(outcome, &self.link))
                        }
                    },
                }
            },
            Event::Content(bytes) => {
                let outcome = match &self.progress {
                    Progress::Reading(content_type) => Document::parse(
                        bytes.as_slice(),
                        content_type,
                        id_transform,
                    ),
                    _ => {
                        let markdown = ContentType::markdown();
                        Document::parse(bytes.as_slice(), &markdown, id_transform)
                    },
                };
                self.progress = Progress::Finished;
                Action::Done(conclude(outcome, &self.link))
            },
        }
    }
}

} // verus!

//! Outcome tags and the chainable error that carries one.

use vstd::prelude::*;

use crate::text::all_digits;
use crate::text::ascii_upper;
use crate::text::chars_of;
use crate::text::decimal;
use crate::text::decimal_digits;
use crate::text::has_prefix;
use crate::text::is_ascii_text;
use crate::text::join2;
use crate::text::join3;
use crate::text::lemma_decimal_round_trip;
use crate::text::parse_unsigned;
use crate::text::same_text;
use crate::text::starts_with;
use crate::text::texts;
use crate::text::to_upper;
use crate::text::unsigned_up_to;
use crate::text::upper_form;

verus! {

/// The outcome of checking one link.
#[derive(Clone, Copy, Debug, PartialEq, Eq, Hash, Structural)]
pub enum Tag {
    /// The link resolved.
    Success,
    HttpError,
    Timeout,
    IoError,
    /// An HTTP status other than success, by its numeric code.
    HttpStatus(u16),
    NoDocument,
    NoFragment,
    Protocol,
    Absolute,
    Directory,
    InvalidUrl,
    NoMime,
    UnrecognizedMime,
    DecodingError,
    Prefixed,
    CaseInsensitiveFragment,
}

/// A bare message, used as the cause of an error that has no other origin.
#[derive(Debug)]
pub struct MsgError(pub String);

impl View for MsgError {
    type V = Seq<char>;

    open spec fn view(&self) -> Seq<char> {
        self.0@
    }
}

/// Whether `code` is a status code that HTTP can carry: three digits.
pub open spec fn is_status_code(code: u16) -> bool {
    100 <= code <= 999
}

impl Tag {
    /// A status tag holds a three-digit code; every other tag is well formed.
    pub open spec fn wf(self) -> bool {
        self matches Tag::HttpStatus(code) ==> is_status_code(code)
    }

    /// The canonical short form of the tag.
    pub open spec fn text(self) -> Seq<char> {
        match self {
            Tag::Success => "OK"@,
            Tag::HttpError => "HTTP_OTH"@,
            Tag::Timeout => "TIMEOUT"@,
            Tag::IoError => "IO_ERR"@,
            Tag::InvalidUrl => "URL_ERR"@,
            Tag::HttpStatus(code) => "HTTP_"@ + decimal_digits(code as nat),
            Tag::NoDocument => "NO_DOC"@,
            Tag::NoFragment => "NO_FRAG"@,
            Tag::Protocol => "PROTOCOL"@,
            Tag::Absolute => "ABSOLUTE"@,
            Tag::Directory => "DIR"@,
            Tag::NoMime => "NO_MIME"@,
            Tag::UnrecognizedMime => "MIME"@,
            Tag::DecodingError => "DEC_ERR"@,
            Tag::Prefixed => "PREFIXED"@,
            Tag::CaseInsensitiveFragment => "CASE_FRAG"@,
        }
    }

    /// The tag that an upper-case short form stands for.
    pub open spec fn of_upper(u: Seq<char>) -> Option<Tag> {
        if u == "OK"@ {
            Some(Tag::Success)
        } else if u == "HTTP_OTH"@ {
            Some(Tag::HttpError)
        } else if u == "TIMEOUT"@ {
            Some(Tag::Timeout)
        } else if u == "IO_ERR"@ {
            Some(Tag::IoError)
        } else if u == "URL_ERR"@ {
            Some(Tag::InvalidUrl)
        } else if u == "NO_DOC"@ {
            Some(Tag::NoDocument)
        } else if u == "NO_FRAG"@ {
            Some(Tag::NoFragment)
        } else if u == "PROTOCOL"@ {
            Some(Tag::Protocol)
        } else if u == "ABSOLUTE"@ {
            Some(Tag::Absolute)
        } else if u == "DIR"@ {
            Some(Tag::Directory)
        } else if u == "NO_MIME"@ {
            Some(Tag::NoMime)
        } else if u == "MIME"@ {
            Some(Tag::UnrecognizedMime)
        } else if u == "DEC_ERR"@ {
            Some(Tag::DecodingError)
        } else if u == "PREFIXED"@ {
            Some(Tag::Prefixed)
        } else if u == "CASE_FRAG"@ {
            Some(Tag::CaseInsensitiveFragment)
        } else {
            Tag::of_status(u)
        }
    }

    /// The status tag that `HTTP_` and a number stand for. The number is
    /// read as an unsigned number is read anywhere: digits, with a `+`
    /// before them if one likes.
    pub open spec fn of_status(u: Seq<char>) -> Option<Tag> {
        if has_prefix(u, "HTTP_"@) {
            match unsigned_up_to(u.skip(5), 65535) {
                Some(n) => if 100 <= n <= 999 {
                    Some(Tag::HttpStatus(n as u16))
                } else {
                    None
                },
                None => None,
            }
        } else {
            None
        }
    }

    /// The tag that a short form stands for, whatever its letter case.
    pub open spec fn parsed(s: Seq<char>) -> Option<Tag> {
        Tag::of_upper(upper_form(s))
    }

    /// The canonical short form of the tag.
    pub fn to_string(&self) -> (s: String)
        ensures
            s@ == self.text(),
    {
        match *self {
            Tag::Success => "OK".to_owned(),
            Tag::HttpError => "HTTP_OTH".to_owned(),
            Tag::Timeout => "TIMEOUT".to_owned(),
            Tag::IoError => "IO_ERR".to_owned(),
            Tag::InvalidUrl => "URL_ERR".to_owned(),
            Tag::HttpStatus(code) => {
                let digits = decimal(code as usize);
                join2("HTTP_", digits.as_str())
            },
            Tag::NoDocument => "NO_DOC".to_owned(),
            Tag::NoFragment => "NO_FRAG".to_owned(),
            Tag::Protocol => "PROTOCOL".to_owned(),
            Tag::Absolute => "ABSOLUTE".to_owned(),
            Tag::Directory => "DIR".to_owned(),
            Tag::NoMime => "NO_MIME".to_owned(),
            Tag::UnrecognizedMime => "MIME".to_owned(),
            Tag::DecodingError => "DEC_ERR".to_owned(),
            Tag::Prefixed => "PREFIXED".to_owned(),
            Tag::CaseInsensitiveFragment => "CASE_FRAG".to_owned(),
        }
    }

    /// Reads a short form, whatever its letter case. Anything that is not the
    /// short form of a tag is refused with the message `Invalid tag`.
    pub fn from_str(s: &str) -> (r: Result<Tag, MsgError>)
        ensures
            match r {
                Ok(tag) => Tag::parsed(s@) == Some(tag) && tag.wf(),
                Err(e) => Tag::parsed(s@) is None && e@ == "Invalid tag"@,
            },
    {
        let upper = to_upper(s);
        let u = upper.as_str();
        if same_text(u, "OK") {
            Ok(Tag::Success)
        } else if same_text(u, "HTTP_OTH") {
            Ok(Tag::HttpError)
        } else if same_text(u, "TIMEOUT") {
            Ok(Tag::Timeout)
        } else if same_text(u, "IO_ERR") {
            Ok(Tag::IoError)
        } else if same_text(u, "URL_ERR") {
            Ok(Tag::InvalidUrl)
        } else if same_text(u, "NO_DOC") {
            Ok(Tag::NoDocument)
        } else if same_text(u, "NO_FRAG") {
            Ok(Tag::NoFragment)
        } else if same_text(u, "PROTOCOL") {
            Ok(Tag::Protocol)
        } else if same_text(u, "ABSOLUTE") {
            Ok(Tag::Absolute)
        } else if same_text(u, "DIR") {
            Ok(Tag::Directory)
        } else if same_text(u, "NO_MIME") {
            Ok(Tag::NoMime)
        } else if same_text(u, "MIME") {
            Ok(Tag::UnrecognizedMime)
        } else if same_text(u, "DEC_ERR") {
            Ok(Tag::DecodingError)
        } else if same_text(u, "PREFIXED") {
            Ok(Tag::Prefixed)
        } else if same_text(u, "CASE_FRAG") {
            Ok(Tag::CaseInsensitiveFragment)
        } else {
            Tag::from_http_status_str(u)
        }
    }

    /// Reads the short form of a status tag, `HTTP_` and the number of the
    /// status, in upper case.
    pub fn from_http_status_str(s: &str) -> (r: Result<Tag, MsgError>)
        ensures
            match r {
                Ok(tag) => Tag::of_status(s@) == Some(tag) && tag.wf(),
                Err(e) => Tag::of_status(s@) is None && e@ == "Invalid tag"@,
            },
    {
        let chars = chars_of(s);
        let prefix = chars_of("HTTP_");
        proof {
            reveal_strlit("HTTP_");
        }
        if !starts_with(&chars, &prefix) {
            return Err(MsgError("Invalid tag".to_owned()));
        }
        match parse_unsigned(&chars, 5, 65535) {
            Some(n) => {
                if 100 <= n && n <= 999 {
                    Ok(Tag::HttpStatus(n as u16))
                } else {
                    Err(MsgError("Invalid tag".to_owned()))
                }
            },
            None => Err(MsgError("Invalid tag".to_owned())),
        }
    }
}

impl MsgError {
    /// The message.
    pub fn to_string(&self) -> (text: String)
        ensures
            text@ == self@,
    {
        self.0.clone()
    }

    /// The message, which is also how the error is described.
    pub fn description(&self) -> (text: &str)
        ensures
            text@ == self@,
    {
        self.0.as_str()
    }
}

/// The reason phrase that the HTTP standards give a status code, where they
/// give one, as `reqwest::StatusCode::canonical_reason` knows it.
pub uninterp spec fn status_reason(code: u16) -> Option<Seq<char>>;

/// Looks `code` up with `reqwest::StatusCode::from_u16` and asks the status
/// for its `canonical_reason`. A number that is no status code has none.
#[verifier::external_body]
fn canonical_reason(code: u16) -> (reason: Option<String>)
    ensures
        match reason {
            Some(text) => status_reason(code) == Some(text@),
            None => status_reason(code) is None,
        },
{
    reqwest::StatusCode::from_u16(code).ok().and_then(|status| status.canonical_reason()).map(
        String::from,
    )
}

/// What follows the number in the message of an unexpected status.
pub open spec fn reason_suffix(code: u16) -> Seq<char> {
    match status_reason(code) {
        Some(reason) => " "@ + reason,
        None => Seq::empty(),
    }
}

/// The one-line message of an error with the tag `tag`.
pub open spec fn message_text(tag: Tag) -> Seq<char> {
    match tag {
        Tag::Success => "Ok"@,
        Tag::InvalidUrl => "Invalid url"@,
        Tag::HttpError => "HTTP error"@,
        Tag::Timeout => "Timeout"@,
        Tag::IoError => "IO error"@,
        Tag::HttpStatus(code) => "Unexpected HTTP status "@ + decimal_digits(code as nat)
            + reason_suffix(code),
        Tag::NoDocument => "Document not found"@,
        Tag::NoFragment => "Fragment not found"@,
        Tag::Protocol => "Unhandled protocol"@,
        Tag::Absolute => "Unable to handle absolute path"@,
        Tag::Directory => "Document is a directory"@,
        Tag::NoMime => "No mime type"@,
        Tag::UnrecognizedMime => "Unrecognized mime type"@,
        Tag::DecodingError => "Decoding error"@,
        Tag::Prefixed => "Fragment not found without prefix"@,
        Tag::CaseInsensitiveFragment => "Fragment not found case-sensitively"@,
    }
}

/// The terse lower-case description of an error with the tag `tag`.
pub open spec fn description_text(tag: Tag) -> Seq<char> {
    match tag {
        Tag::Success => "ok"@,
        Tag::HttpError => "http error"@,
        Tag::Timeout => "timeout"@,
        Tag::IoError => "io error"@,
        Tag::InvalidUrl => "invalid url"@,
        Tag::HttpStatus(_) => "unexpected http status"@,
        Tag::NoDocument => "document not found"@,
        Tag::NoFragment => "fragment not found"@,
        Tag::Protocol => "unrecognized protocol"@,
        Tag::Absolute => "unhandled absolute path"@,
        Tag::Directory => "document is a directory"@,
        Tag::NoMime => "no mime type"@,
        Tag::UnrecognizedMime => "unrecognized mime type"@,
        Tag::DecodingError => "decoding error"@,
        Tag::Prefixed => "prefixed fragmendt"@,
        Tag::CaseInsensitiveFragment => "case-insensitive fragmendt"@,
    }
}

/// A tag, the context gathered on the way out, and the chain of causes.
#[derive(Debug)]
pub struct Error {
    pub tag: Tag,
    /// The context lines in the order in which they were added.
    pub msgs: Vec<String>,
    /// The messages of the causes, the immediate cause first.
    pub cause: Vec<String>,
}

/// What an [`Error`] holds.
pub ghost struct ErrorView {
    pub tag: Tag,
    /// The context lines in the order in which they were added.
    pub msgs: Seq<Seq<char>>,
    /// The messages of the causes, the immediate cause first.
    pub cause: Seq<Seq<char>>,
}

impl View for Error {
    type V = ErrorView;

    open spec fn view(&self) -> ErrorView {
        ErrorView { tag: self.tag, msgs: texts(self.msgs@), cause: texts(self.cause@) }
    }
}

/// The lines that report an error: its message, then the context from the
/// line added last to the line added first, then the causes.
pub open spec fn rendered(e: ErrorView) -> Seq<Seq<char>> {
    seq![message_text(e.tag)] + Seq::new(
        e.msgs.len(),
        |i: int| "  context: "@ + e.msgs[e.msgs.len() - 1 - i],
    ) + Seq::new(e.cause.len(), |i: int| "  caused by: "@ + e.cause[i])
}

impl Tag {
    /// An error with this tag, no context and no cause.
    pub fn as_error(&self) -> (e: Error)
        ensures
            e@ == (ErrorView { tag: *self, msgs: Seq::empty(), cause: Seq::empty() }),
            e.tag == *self,
    {
        let e = Error { tag: *self, msgs: Vec::new(), cause: Vec::new() };
        assert(e@.msgs =~= Seq::empty());
        assert(e@.cause =~= Seq::empty());
        e
    }
}

impl Error {
    /// An error with the tag `tag`, no context, and `cause` as its chain of
    /// causes, the immediate cause first.
    pub fn with_cause(tag: Tag, cause: Vec<String>) -> (e: Error)
        ensures
            e@ == (ErrorView { tag, msgs: Seq::empty(), cause: texts(cause@) }),
            e.tag == tag,
    {
        let e = Error { tag, msgs: Vec::new(), cause };
        assert(e@.msgs =~= Seq::empty());
        e
    }

    /// The same error with one more line of context.
    pub fn context(self, msg: String) -> (e: Error)
        ensures
            e@ == (ErrorView { msgs: self@.msgs.push(msg@), ..self@ }),
            e.tag == self.tag,
    {
        let Error { tag, msgs, cause } = self;
        let mut msgs = msgs;
        msgs.push(msg);
        let e = Error { tag, msgs, cause };
        assert(e@.msgs =~= self@.msgs.push(msg@));
        e
    }

    /// The message of the immediate cause, if the error has a cause.
    pub fn cause(&self) -> (c: Option<&String>)
        ensures
            match c {
                Some(text) => self@.cause.len() > 0 && text@ == self@.cause[0],
                None => self@.cause.len() == 0,
            },
    {
        if self.cause.len() > 0 {
            Some(&self.cause[0])
        } else {
            None
        }
    }

    /// A decoding failure that `msg` explains.
    pub fn decoding_error(msg: String) -> (e: Error)
        ensures
            e@ == (ErrorView { tag: Tag::DecodingError, msgs: Seq::empty(), cause: seq![msg@] }),
            e.tag == Tag::DecodingError,
    {
        let mut cause: Vec<String> = Vec::new();
        cause.push(msg);
        let e = Error { tag: Tag::DecodingError, msgs: Vec::new(), cause };
        assert(e@.msgs =~= Seq::empty());
        assert(e@.cause =~= seq![msg@]);
        e
    }

    /// The error for a failed read: a missing file is a missing document,
    /// anything else an I/O error.
    pub fn from_io(not_found: bool, cause: Vec<String>) -> (e: Error)
        ensures
            e@ == (ErrorView {
                tag: if not_found {
                    Tag::NoDocument
                } else {
                    Tag::IoError
                },
                msgs: Seq::empty(),
                cause: texts(cause@),
            }),
    {
        if not_found {
            Error::with_cause(Tag::NoDocument, cause)
        } else {
            Error::with_cause(Tag::IoError, cause)
        }
    }

    /// The error for a failed request: a timeout is told apart from every
    /// other transport failure.
    pub fn from_transport(timed_out: bool, cause: Vec<String>) -> (e: Error)
        ensures
            e@ == (ErrorView {
                tag: if timed_out {
                    Tag::Timeout
                } else {
                    Tag::HttpError
                },
                msgs: Seq::empty(),
                cause: texts(cause@),
            }),
    {
        if timed_out {
            Error::with_cause(Tag::Timeout, cause)
        } else {
            Error::with_cause(Tag::HttpError, cause)
        }
    }

    /// The error for a content type that makes no sense.
    pub fn from_mime(cause: Vec<String>) -> (e: Error)
        ensures
            e@ == (ErrorView { tag: Tag::UnrecognizedMime, msgs: Seq::empty(), cause: texts(cause@) }),
    {
        Error::with_cause(Tag::UnrecognizedMime, cause)
    }

    /// The error for a header that is not text.
    pub fn from_header(cause: Vec<String>) -> (e: Error)
        ensures
            e@ == (ErrorView { tag: Tag::HttpError, msgs: Seq::empty(), cause: texts(cause@) }),
    {
        Error::with_cause(Tag::HttpError, cause)
    }

    /// The error for a URL that is none.
    pub fn from_url(cause: Vec<String>) -> (e: Error)
        ensures
            e@ == (ErrorView { tag: Tag::InvalidUrl, msgs: Seq::empty(), cause: texts(cause@) }),
    {
        Error::with_cause(Tag::InvalidUrl, cause)
    }

    /// The one-line message of the error.
    pub fn to_string(&self) -> (s: String)
        ensures
            s@ == message_text(self@.tag),
    {
        match self.tag {
            Tag::Success => "Ok".to_owned(),
            Tag::InvalidUrl => "Invalid url".to_owned(),
            Tag::HttpError => "HTTP error".to_owned(),
            Tag::Timeout => "Timeout".to_owned(),
            Tag::IoError => "IO error".to_owned(),
            Tag::HttpStatus(code) => {
                let digits = decimal(code as usize);
                let head = join2("Unexpected HTTP status ", digits.as_str());
                match canonical_reason(code) {
                    Some(reason) => join3(head.as_str(), " ", reason.as_str()),
                    None => {
                        assert(head@ + Seq::<char>::empty() =~= head@);
                        head
                    },
                }
            },
            Tag::NoDocument => "Document not found".to_owned(),
            Tag::NoFragment => "Fragment not found".to_owned(),
            Tag::Protocol => "Unhandled protocol".to_owned(),
            Tag::Absolute => "Unable to handle absolute path".to_owned(),
            Tag::Directory => "Document is a directory".to_owned(),
            Tag::NoMime => "No mime type".to_owned(),
            Tag::UnrecognizedMime => "Unrecognized mime type".to_owned(),
            Tag::DecodingError => "Decoding error".to_owned(),
            Tag::Prefixed => "Fragment not found without prefix".to_owned(),
            Tag::CaseInsensitiveFragment => "Fragment not found case-sensitively".to_owned(),
        }
    }

    /// The terse lower-case description of the error.
    pub fn description(&self) -> (s: &'static str)
        ensures
            s@ == description_text(self@.tag),
    {
        match self.tag {
            Tag::Success => "ok",
            Tag::HttpError => "http error",
            Tag::Timeout => "timeout",
            Tag::IoError => "io error",
            Tag::InvalidUrl => "invalid url",
            Tag::HttpStatus(_) => "unexpected http status",
            Tag::NoDocument => "document not found",
            Tag::NoFragment => "fragment not found",
            Tag::Protocol => "unrecognized protocol",
            Tag::Absolute => "unhandled absolute path",
            Tag::Directory => "document is a directory",
            Tag::NoMime => "no mime type",
            Tag::UnrecognizedMime => "unrecognized mime type",
            Tag::DecodingError => "decoding error",
            Tag::Prefixed => "prefixed fragmendt",
            Tag::CaseInsensitiveFragment => "case-insensitive fragmendt",
        }
    }

    /// A cursor over the lines that report the error, at the first line.
    pub fn iter(&self) -> (it: ErrorIter<'_>)
        ensures
            it.error() == self@,
            it.position() == 0,
    {
        ErrorIter { started: false, count: 0, cause_pos: 0, err: self }
    }
}

/// A cursor over the lines that report an error.
pub struct ErrorIter<'a> {
    started: bool,
    count: usize,
    cause_pos: usize,
    err: &'a Error,
}

impl<'a> ErrorIter<'a> {
    /// The counters stay within the error's lines and advance in order.
    #[verifier::type_invariant]
    spec fn in_step(&self) -> bool {
        &&& self.count <= self.err.msgs.len()
        &&& self.cause_pos <= self.err.cause.len()
        &&& !self.started ==> self.count == 0 && self.cause_pos == 0
        &&& self.count < self.err.msgs.len() ==> self.cause_pos == 0
    }

    /// The error whose lines the cursor walks.
    pub closed spec fn error(&self) -> ErrorView {
        self.err@
    }

    /// How many lines the cursor has handed out.
    pub closed spec fn position(&self) -> nat {
        if self.started {
            (1 + self.count + self.cause_pos) as nat
        } else {
            0
        }
    }

    /// The next line, if one is left.
    pub fn next(&mut self) -> (line: Option<String>)
        ensures
            final(self).error() == old(self).error(),
            final(self).position() <= rendered(old(self).error()).len(),
            match line {
                Some(text) => {
                    &&& old(self).position() < rendered(old(self).error()).len()
                    &&& text@ == rendered(old(self).error())[old(self).position() as int]
                    &&& final(self).position() == old(self).position() + 1
                },
                None => {
                    &&& old(self).position() >= rendered(old(self).error()).len()
                    &&& final(self).position() == old(self).position()
                },
            },
    {
        proof {
            use_type_invariant(&*self);
        }
        let err = self.err;
        let ghost e = err@;
        let ghost head = seq![message_text(e.tag)];
        let ghost context = Seq::new(
            e.msgs.len(),
            |i: int| "  context: "@ + e.msgs[e.msgs.len() - 1 - i],
        );
        let ghost causes = Seq::new(e.cause.len(), |i: int| "  caused by: "@ + e.cause[i]);
        assert(rendered(e) == head + context + causes);
        if !self.started {
            self.started = true;
            assert((head + context + causes)[0] == head[0]);
            Some(err.to_string())
        } else if self.count < err.msgs.len() {
            let elem = &err.msgs[err.msgs.len() - 1 - self.count];
            assert((head + context + causes)[1 + self.count] == context[self.count as int]);
            assert(e.msgs[e.msgs.len() - 1 - self.count] == elem@);
            self.count += 1;
            Some(join2("  context: ", elem.as_str()))
        } else if self.cause_pos < err.cause.len() {
            let elem = &err.cause[self.cause_pos];
            assert((head + context + causes)[1 + self.count + self.cause_pos]
                == causes[self.cause_pos as int]);
            assert(e.cause[self.cause_pos as int] == elem@);
            self.cause_pos += 1;
            Some(join2("  caused by: ", elem.as_str()))
        } else {
            None
        }
    }
}

/// The short forms, character by character.
proof fn reveal_short_forms()
    ensures
        "OK"@ == seq!['O', 'K'],
        "HTTP_OTH"@ == seq!['H', 'T', 'T', 'P', '_', 'O', 'T', 'H'],
        "TIMEOUT"@ == seq!['T', 'I', 'M', 'E', 'O', 'U', 'T'],
        "IO_ERR"@ == seq!['I', 'O', '_', 'E', 'R', 'R'],
        "URL_ERR"@ == seq!['U', 'R', 'L', '_', 'E', 'R', 'R'],
        "NO_DOC"@ == seq!['N', 'O', '_', 'D', 'O', 'C'],
        "NO_FRAG"@ == seq!['N', 'O', '_', 'F', 'R', 'A', 'G'],
        "PROTOCOL"@ == seq!['P', 'R', 'O', 'T', 'O', 'C', 'O', 'L'],
        "ABSOLUTE"@ == seq!['A', 'B', 'S', 'O', 'L', 'U', 'T', 'E'],
        "DIR"@ == seq!['D', 'I', 'R'],
        "NO_MIME"@ == seq!['N', 'O', '_', 'M', 'I', 'M', 'E'],
        "MIME"@ == seq!['M', 'I', 'M', 'E'],
        "DEC_ERR"@ == seq!['D', 'E', 'C', '_', 'E', 'R', 'R'],
        "PREFIXED"@ == seq!['P', 'R', 'E', 'F', 'I', 'X', 'E', 'D'],
        "CASE_FRAG"@ == seq!['C', 'A', 'S', 'E', '_', 'F', 'R', 'A', 'G'],
        "HTTP_"@ == seq!['H', 'T', 'T', 'P', '_'],
{
    reveal_strlit("OK");
    reveal_strlit("HTTP_OTH");
    reveal_strlit("TIMEOUT");
    reveal_strlit("IO_ERR");
    reveal_strlit("URL_ERR");
    reveal_strlit("NO_DOC");
    reveal_strlit("NO_FRAG");
    reveal_strlit("PROTOCOL");
    reveal_strlit("ABSOLUTE");
    reveal_strlit("DIR");
    reveal_strlit("NO_MIME");
    reveal_strlit("MIME");
    reveal_strlit("DEC_ERR");
    reveal_strlit("PREFIXED");
    reveal_strlit("CASE_FRAG");
    reveal_strlit("HTTP_");
}

/// Every short form is written in ASCII and in upper case already.
pub proof fn lemma_short_form_is_upper(tag: Tag)
    ensures
        is_ascii_text(tag.text()),
        upper_form(tag.text()) == tag.text(),
{
    reveal_short_forms();
    let t = tag.text();
    if let Tag::HttpStatus(code) = tag {
        lemma_decimal_round_trip(code as nat);
        let digits = decimal_digits(code as nat);
        assert forall|i: int| 0 <= i < t.len() implies (#[trigger] t[i]) <= '\x7f' && !('a' <= t[i]
            && t[i] <= 'z') by {
            if i >= 5 {
                assert(t[i] == digits[i - 5]);
            }
        }
    }
    assert(ascii_upper(t) =~= t);
}

/// Reading the short form of a tag gives the tag back.
pub proof fn lemma_tag_round_trip(tag: Tag)
    requires
        tag.wf(),
    ensures
        Tag::parsed(tag.text()) == Some(tag),
{
    reveal_short_forms();
    lemma_short_form_is_upper(tag);
    let t = tag.text();
    if let Tag::HttpStatus(code) = tag {
        lemma_decimal_round_trip(code as nat);
        let digits = decimal_digits(code as nat);
        assert(t.len() >= 6);
        assert(t[5] == digits[0]);
        assert(t[0] == 'H');
        assert(t.take(5) =~= "HTTP_"@);
        assert(t.skip(5) =~= digits);
    }
}


} // verus!

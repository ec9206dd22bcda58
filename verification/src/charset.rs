//! Content types, and bytes turned into text.

use vstd::prelude::*;

use crate::error::Error;
use crate::error::ErrorView;
use crate::error::Tag;
use crate::text::join2;
use crate::text::option_text;
use crate::text::same_text;
use crate::text::texts;

verus! {

/// A content type, as far as documents are told apart by it. All three
/// parts are in lower case.
#[derive(Debug)]
pub struct ContentType {
    pub type_: String,
    pub subtype: String,
    /// The `charset` parameter, where the content type has one.
    pub charset: Option<String>,
}

/// What a [`ContentType`] holds.
pub ghost struct ContentTypeView {
    pub type_: Seq<char>,
    pub subtype: Seq<char>,
    pub charset: Option<Seq<char>>,
}

impl View for ContentType {
    type V = ContentTypeView;

    open spec fn view(&self) -> ContentTypeView {
        ContentTypeView {
            type_: self.type_@,
            subtype: self.subtype@,
            charset: option_text(self.charset),
        }
    }
}

/// What a parsed content type or the reason of its refusal holds.
pub open spec fn mime_view(parsed: Result<ContentType, String>) -> Result<
    ContentTypeView,
    Seq<char>,
> {
    match parsed {
        Ok(content_type) => Ok(content_type@),
        Err(why) => Err(why@),
    }
}

/// What the `mime` crate reads in the value of a `Content-Type` header: the
/// type, the subtype and the `charset` parameter of the `Mime` that
/// `str::parse` gives, or the message of the error.
pub uninterp spec fn mime_parsed(text: Seq<char>) -> Result<ContentTypeView, Seq<char>>;

/// Parses `text` as a `mime::Mime` and takes its `type_`, its `subtype` and
/// its `charset` parameter.
#[verifier::external_body]
fn parse_mime(text: &str) -> (parsed: Result<ContentType, String>)
    ensures
        mime_view(parsed) == mime_parsed(text@),
{
    text.parse::<mime::Mime>().map(
        |m|
            ContentType {
                type_: m.type_().as_str().to_string(),
                subtype: m.subtype().as_str().to_string(),
                charset: m.get_param(mime::CHARSET).map(|v| v.as_str().to_string()),
            },
    ).map_err(|e| e.to_string())
}

/// The kinds of document whose anchors can be read.
#[derive(Clone, Copy, Debug, PartialEq, Eq, Structural)]
pub enum Format {
    Html,
    Markdown,
}

/// The kind of document that a content type announces: `text/html` and
/// `text/markdown` are understood, nothing else is.
pub open spec fn format_of(content_type: ContentTypeView) -> Option<Format> {
    if content_type.type_ == "text"@ && content_type.subtype == "html"@ {
        Some(Format::Html)
    } else if content_type.type_ == "text"@ && content_type.subtype == "markdown"@ {
        Some(Format::Markdown)
    } else {
        None
    }
}

impl ContentType {
    /// The content type of local files: Markdown in UTF-8.
    pub fn markdown() -> (content_type: ContentType)
        ensures
            content_type@ == (ContentTypeView {
                type_: "text"@,
                subtype: "markdown"@,
                charset: Some("utf-8"@),
            }),
            format_of(content_type@) == Some(Format::Markdown),
    {
        proof {
            reveal_strlit("html");
            reveal_strlit("markdown");
            assert("html"@.len() == 4);
            assert("markdown"@.len() == 8);
        }
        ContentType {
            type_: "text".to_owned(),
            subtype: "markdown".to_owned(),
            charset: Some("utf-8".to_owned()),
        }
    }

    /// Reads the value of a `Content-Type` header. What is no content type
    /// is an unrecognized MIME type, with the reason as its cause.
    pub fn parse(text: &str) -> (r: Result<ContentType, Error>)
        ensures
            match r {
                Ok(content_type) => mime_parsed(text@) == Ok::<ContentTypeView, Seq<char>>(
                    content_type@,
                ),
                Err(e) => mime_parsed(text@) matches Err(why) && e@ == (ErrorView {
                    tag: Tag::UnrecognizedMime,
                    msgs: Seq::empty(),
                    cause: seq![why],
                }),
            },
    {
        match parse_mime(text) {
            Ok(content_type) => Ok(content_type),
            Err(why) => {
                let mut cause: Vec<String> = Vec::new();
                cause.push(why);
                assert(texts(cause@) =~= seq![why@]);
                Err(Error::from_mime(cause))
            },
        }
    }

    /// The kind of document that the content type announces.
    pub fn format(&self) -> (format: Option<Format>)
        ensures
            format == format_of(self@),
    {
        if same_text(self.type_.as_str(), "text") && same_text(self.subtype.as_str(), "html") {
            Some(Format::Html)
        } else if same_text(self.type_.as_str(), "text") && same_text(
            self.subtype.as_str(),
            "markdown",
        ) {
            Some(Format::Markdown)
        } else {
            None
        }
    }
}

// ---------------------------------------------------------------------------
// Character sets
// ---------------------------------------------------------------------------

/// What a list of labels or the message of a failure holds.
pub open spec fn detection_view(found: Result<Vec<String>, (bool, String)>) -> Result<
    Seq<Seq<char>>,
    Seq<char>,
> {
    match found {
        Ok(labels) => Ok(texts(labels@)),
        Err(failure) => Err(failure.1@),
    }
}

/// What `xhtmlchardet::detect` makes of a document that is read from memory:
/// the labels of the character sets that it may be written in, the likeliest
/// first, or the message of the error with which reading stopped.
pub uninterp spec fn charset_detection(bytes: Seq<u8>, hint: Option<Seq<char>>) -> Result<
    Seq<Seq<char>>,
    Seq<char>,
>;

/// Hands `bytes` to `xhtmlchardet::detect` through a `std::io::Cursor`.
/// Detection reads four bytes first and fails where the document is
/// shorter; it fails nowhere else, and never because something was not
/// found. Of the error the wrapper keeps whether its kind is `NotFound`,
/// and its message.
#[verifier::external_body]
fn detect(bytes: &[u8], hint: Option<String>) -> (found: Result<Vec<String>, (bool, String)>)
    ensures
        detection_view(found) == charset_detection(bytes@, option_text(hint)),
        found is Err <==> bytes@.len() < 4,
        found matches Err(failure) ==> !failure.0,
{
    xhtmlchardet::detect(&mut std::io::Cursor::new(bytes), hint).map_err(
        |e| (e.kind() == std::io::ErrorKind::NotFound, e.to_string()),
    )
}

/// The name of the encoding that `encoding::label::encoding_from_whatwg_label`
/// knows under `label`, where it knows one.
pub uninterp spec fn encoding_name(label: Seq<char>) -> Option<Seq<char>>;

/// What the encoding known under `label` makes of `bytes` when it decodes
/// them strictly: the text, or what is wrong with the bytes.
pub uninterp spec fn strict_decoding(label: Seq<char>, bytes: Seq<u8>) -> Result<
    Seq<char>,
    Seq<char>,
>;

/// Looks `label` up with `encoding_from_whatwg_label` and asks the encoding
/// for its `name`.
#[verifier::external_body]
fn whatwg_encoding(label: &str) -> (name: Option<String>)
    ensures
        option_text(name) == encoding_name(label@),
{
    encoding::label::encoding_from_whatwg_label(label).map(|e| e.name().to_string())
}

/// What a decoded text or the reason of a failure holds.
pub open spec fn decoding_view(decoded: Result<String, String>) -> Result<Seq<char>, Seq<char>> {
    match decoded {
        Ok(text) => Ok(text@),
        Err(why) => Err(why@),
    }
}

/// Looks `label` up with `encoding_from_whatwg_label` and has the encoding
/// `decode` the bytes with `DecoderTrap::Strict`. There is a result where
/// the label is known.
#[verifier::external_body]
fn decode_strict(label: &str, bytes: &[u8]) -> (decoded: Option<Result<String, String>>)
    ensures
        decoded is Some <==> encoding_name(label@) is Some,
        decoded matches Some(d) ==> decoding_view(d) == strict_decoding(label@, bytes@),
{
    encoding::label::encoding_from_whatwg_label(label).map(
        |e| e.decode(bytes, encoding::DecoderTrap::Strict).map_err(|why| why.into_owned()),
    )
}

/// The first of `labels` under which an encoding is known.
pub open spec fn first_known(labels: Seq<Seq<char>>) -> Option<Seq<char>>
    decreases labels.len(),
{
    if labels.len() == 0 {
        None
    } else if encoding_name(labels[0]) is Some {
        Some(labels[0])
    } else {
        first_known(labels.skip(1))
    }
}

/// The text of a document given as bytes, with the character set that
/// the sender announced as a hint. The character set is detected first;
/// the first detected label under which an encoding is known decides, and
/// the bytes have to be that encoding without a flaw.
pub open spec fn decoded(bytes: Seq<u8>, hint: Option<Seq<char>>) -> Result<Seq<char>, ErrorView> {
    match charset_detection(bytes, hint) {
        Err(why) => Err(ErrorView { tag: Tag::IoError, msgs: Seq::empty(), cause: seq![why] }),
        Ok(labels) => match first_known(labels) {
            None => Err(
                ErrorView {
                    tag: Tag::DecodingError,
                    msgs: Seq::empty(),
                    cause: seq!["Failed to detect character encoding"@],
                },
            ),
            Some(label) => match strict_decoding(label, bytes) {
                Ok(text) => Ok(text),
                Err(why) => Err(
                    ErrorView {
                        tag: Tag::DecodingError,
                        msgs: seq!["encoding = "@ + encoding_name(label)->0],
                        cause: seq![why],
                    },
                ),
            },
        },
    }
}

/// Whether an exec result is the text or the error that the rules give.
pub open spec fn is_decoded(got: Result<String, Error>, expected: Result<Seq<char>, ErrorView>)
    -> bool {
    match got {
        Ok(text) => expected == Ok::<Seq<char>, ErrorView>(text@),
        Err(e) => expected == Err::<Seq<char>, ErrorView>(e@),
    }
}

/// Turns the bytes of a document into text.
pub fn read_chars(bytes: &[u8], charset_hint: Option<String>) -> (r: Result<String, Error>)
    ensures
        is_decoded(r, decoded(bytes@, option_text(charset_hint))),
        bytes@.len() < 4 ==> (r matches Err(e) && e@.tag == Tag::IoError),
{
    let charsets = match detect(bytes, charset_hint) {
        Ok(charsets) => charsets,
        Err((not_found, why)) => {
            let mut cause: Vec<String> = Vec::new();
            cause.push(why);
            assert(texts(cause@) =~= seq![why@]);
            return Err(Error::from_io(not_found, cause));
        },
    };
    let ghost labels = texts(charsets@);
    let mut i: usize = 0;
    assert(labels.skip(0) =~= labels);
    while i < charsets.len()
        invariant
            i <= charsets.len(),
            bytes@.len() >= 4,
            labels == texts(charsets@),
            charset_detection(bytes@, option_text(charset_hint)) == Ok::<
                Seq<Seq<char>>,
                Seq<char>,
            >(labels),
            first_known(labels) == first_known(labels.skip(i as int)),
        decreases charsets.len() - i,
    {
        let label = charsets[i].as_str();
        assert(labels.skip(i as int)[0] == label@);
        match whatwg_encoding(label) {
            Some(name) => {
                match decode_strict(label, bytes) {
                    Some(Ok(text)) => {
                        return Ok(text);
                    },
                    Some(Err(why)) => {
                        let e = Error::decoding_error(why).context(
                            join2("encoding = ", name.as_str()),
                        );
                        assert(e@.msgs =~= seq!["encoding = "@ + name@]);
                        return Err(e);
                    },
                    None => {
                        assert(false);
                    },
                }
            },
            None => {},
        }
        assert(labels.skip(i as int).skip(1) =~= labels.skip(i + 1));
        i += 1;
    }
    Err(Error::decoding_error("Failed to detect character encoding".to_owned()))
}

} // verus!

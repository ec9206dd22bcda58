use linky::error::Error;
use linky::error::Tag;
use linky::errors::LookupError;

fn all_tags() -> Vec<Tag> {
    vec![
        Tag::Success,
        Tag::HttpError,
        Tag::Timeout,
        Tag::IoError,
        Tag::HttpStatus(404),
        Tag::HttpStatus(100),
        Tag::HttpStatus(999),
        Tag::NoDocument,
        Tag::NoFragment,
        Tag::Protocol,
        Tag::Absolute,
        Tag::Directory,
        Tag::InvalidUrl,
        Tag::NoMime,
        Tag::UnrecognizedMime,
        Tag::DecodingError,
        Tag::Prefixed,
        Tag::CaseInsensitiveFragment,
    ]
}

#[test]
fn short_forms_are_the_canonical_tokens() {
    let expected = [
        "OK", "HTTP_OTH", "TIMEOUT", "IO_ERR", "HTTP_404", "HTTP_100", "HTTP_999", "NO_DOC",
        "NO_FRAG", "PROTOCOL", "ABSOLUTE", "DIR", "URL_ERR", "NO_MIME", "MIME", "DEC_ERR",
        "PREFIXED", "CASE_FRAG",
    ];
    let tags = all_tags();
    assert_eq!(tags.len(), expected.len());
    for (tag, text) in tags.iter().zip(expected.iter()) {
        assert_eq!(tag.to_string(), *text);
    }
}

#[test]
fn every_tag_reads_back_from_its_short_form() {
    for tag in all_tags() {
        let parsed = Tag::from_str(&tag.to_string()).map_err(|e| e.0);
        assert_eq!(parsed, Ok(tag));
    }
}

#[test]
fn reading_a_tag_ignores_letter_case() {
    assert_eq!(Tag::from_str("no_frag").map_err(|e| e.0), Ok(Tag::NoFragment));
    assert_eq!(Tag::from_str("Http_404").map_err(|e| e.0), Ok(Tag::HttpStatus(404)));
    assert_eq!(Tag::from_str("case_Frag").map_err(|e| e.0), Ok(Tag::CaseInsensitiveFragment));
}

#[test]
fn status_numbers_are_read_as_the_standard_library_reads_them() {
    for text in ["404", "+404", "0404", "000000000404", "99", "1000", "65535", "65536", "", "+", "-404", "4 04", "40x"] {
        let expected = text
            .parse::<u16>()
            .ok()
            .filter(|n| (100..1000).contains(n))
            .map(Tag::HttpStatus);
        let got = Tag::from_str(&format!("HTTP_{}", text)).ok();
        assert_eq!(got, expected, "HTTP_{}", text);
    }
}

#[test]
fn what_is_no_tag_is_refused() {
    for text in ["", "OKAY", "HTTP", "HTTP_", "HTTP_abc", "HTTP_99", "HTTP_1000", " OK", "OK "] {
        assert_eq!(Tag::from_str(text).map_err(|e| e.0), Err("Invalid tag".to_string()));
    }
}

#[test]
fn upper_casing_follows_unicode() {
    // The dotless i becomes an ordinary capital I.
    assert_eq!(Tag::from_str("d\u{131}r").map_err(|e| e.0), Ok(Tag::Directory));
}

#[test]
fn error_messages() {
    assert_eq!(Tag::NoFragment.as_error().to_string(), "Fragment not found");
    assert_eq!(Tag::HttpStatus(404).as_error().to_string(), "Unexpected HTTP status 404 Not Found");
    assert_eq!(Tag::HttpStatus(301).as_error().to_string(), "Unexpected HTTP status 301 Moved Permanently");
    assert_eq!(Tag::HttpStatus(999).as_error().to_string(), "Unexpected HTTP status 999");
    assert_eq!(Tag::Prefixed.as_error().description(), "prefixed fragmendt");
    assert_eq!(Tag::Absolute.as_error().to_string(), "Unable to handle absolute path");
}

#[test]
fn error_lines_put_the_latest_context_first() {
    let err = Error::decoding_error("bad byte".to_string())
        .context("encoding = utf-8".to_string())
        .context("link = /tmp/a.md".to_string());
    assert_eq!(err.tag, Tag::DecodingError);
    assert_eq!(err.cause(), Some(&"bad byte".to_string()));
    let mut it = err.iter();
    let mut lines = Vec::new();
    while let Some(line) = it.next() {
        lines.push(line);
    }
    assert_eq!(
        lines,
        vec![
            "Decoding error".to_string(),
            "  context: link = /tmp/a.md".to_string(),
            "  context: encoding = utf-8".to_string(),
            "  caused by: bad byte".to_string(),
        ]
    );
    assert_eq!(it.next(), None);
}

#[test]
fn conversions_pick_the_tag() {
    assert_eq!(Error::from_io(true, vec![]).tag, Tag::NoDocument);
    assert_eq!(Error::from_io(false, vec!["denied".to_string()]).tag, Tag::IoError);
    assert_eq!(Error::from_transport(true, vec![]).tag, Tag::Timeout);
    assert_eq!(Error::from_transport(false, vec![]).tag, Tag::HttpError);
    assert_eq!(Tag::Success.as_error().cause(), None);
}

#[test]
fn context_wraps_the_explanations_so_far() {
    let err = LookupError::root(Tag::NoDocument);
    assert_eq!(err.tag(), Tag::NoDocument);
    assert!(err.cause().is_none());
    let err = err.context("first".to_string()).context("second".to_string());
    assert_eq!(err.to_string(), "Document not found");
    assert_eq!(err.description(), "document not found");
    let outer = err.cause().unwrap();
    assert_eq!(outer.to_string(), "second");
    assert_eq!(outer.description(), "second");
    let inner = outer.cause().unwrap();
    assert_eq!(inner.to_string(), "first");
    assert!(inner.cause().is_none());
}

#[test]
fn a_status_tag_is_read_in_upper_case_only() {
    assert_eq!(Tag::from_http_status_str("HTTP_404").map_err(|e| e.0), Ok(Tag::HttpStatus(404)));
    assert_eq!(Tag::from_http_status_str("http_404").map_err(|e| e.0), Err("Invalid tag".to_string()));
    assert_eq!(Tag::from_http_status_str("HTTP_OTH").map_err(|e| e.to_string()), Err("Invalid tag".to_string()));
    assert_eq!(Tag::from_http_status_str("OK").unwrap_err().description(), "Invalid tag");
}

#[test]
fn errors_from_outside_carry_their_cause() {
    let cause = vec!["outer".to_string(), "inner".to_string()];
    for (err, tag) in [
        (Error::from_mime(cause.clone()), Tag::UnrecognizedMime),
        (Error::from_header(cause.clone()), Tag::HttpError),
        (Error::from_url(cause.clone()), Tag::InvalidUrl),
        (Error::with_cause(Tag::Timeout, cause.clone()), Tag::Timeout),
    ] {
        assert_eq!(err.tag, tag);
        assert_eq!(err.cause, cause);
        assert!(err.msgs.is_empty());
        assert_eq!(err.cause(), Some(&"outer".to_string()));
    }
}

use linky::charset::Format;
use linky::error::Error;
use linky::html::check_attributes;
use linky::html::html_ids;
use linky::read_chars;
use linky::ContentType;
use linky::Document;
use linky::GithubId;
use linky::Tag;

fn maker() -> GithubId {
    GithubId::new().expect("the punctuation pattern is accepted")
}

fn lines(err: &Error) -> Vec<String> {
    let mut it = err.iter();
    let mut lines = Vec::new();
    while let Some(line) = it.next() {
        lines.push(line);
    }
    lines
}

fn content_type(text: &str) -> ContentType {
    ContentType::parse(text).expect("a content type")
}

#[test]
fn decoding() {
    let latin1 = b"\xC4ntligen stod pr\xE4sten i predikstolen.".to_vec();
    assert_eq!(
        read_chars(latin1.as_slice(), Some("ISO-8859-1".to_string())).ok(),
        Some("Äntligen stod prästen i predikstolen.".to_string())
    );
}

#[test]
fn text_without_a_hint_is_taken_for_utf_8() {
    assert_eq!(read_chars("pr\u{e4}sten i predikstolen".as_bytes(), None).ok(), Some("pr\u{e4}sten i predikstolen".to_string()));
}

#[test]
fn the_declared_encoding_of_a_document_counts() {
    let bytes = b"<?xml version=\"1.0\" encoding=\"ISO-8859-1\"?><p>pr\xE4st</p>";
    assert_eq!(read_chars(bytes, None).ok(), Some("<?xml version=\"1.0\" encoding=\"ISO-8859-1\"?><p>pr\u{e4}st</p>".to_string()));
}

#[test]
fn bytes_that_are_not_the_encoding_are_refused() {
    let err = read_chars(b"abcd \xff\xfe and more", Some("utf-8".to_string())).unwrap_err();
    assert_eq!(err.tag, Tag::DecodingError);
    let lines = lines(&err);
    assert_eq!(lines[0], "Decoding error");
    assert_eq!(lines[1], "  context: encoding = utf-8");
    assert!(lines[2].starts_with("  caused by: "));
    assert_eq!(lines.len(), 3);
}

#[test]
fn an_unknown_character_set_is_a_decoding_error() {
    let err = read_chars(b"some text here", Some("klingon".to_string())).unwrap_err();
    assert_eq!(err.tag, Tag::DecodingError);
    assert_eq!(
        lines(&err),
        vec!["Decoding error", "  caused by: Failed to detect character encoding"]
    );
}

#[test]
fn a_document_of_four_bytes_shows_no_character_set() {
    let err = read_chars(b"abcd", Some("utf-8".to_string())).unwrap_err();
    assert_eq!(err.tag, Tag::DecodingError);
    assert_eq!(
        lines(&err),
        vec!["Decoding error", "  caused by: Failed to detect character encoding"]
    );
}

#[test]
fn a_document_of_less_than_four_bytes_cannot_be_read() {
    for bytes in [&b""[..], &b"a"[..], &b"abc"[..]] {
        let err = read_chars(bytes, Some("utf-8".to_string())).unwrap_err();
        assert_eq!(err.tag, Tag::IoError);
        assert_eq!(lines(&err).len(), 2);
    }
}

#[test]
fn content_types_are_read_by_the_mime_crate() {
    let html = content_type("text/html; charset=ISO-8859-1");
    assert_eq!(html.type_, "text");
    assert_eq!(html.subtype, "html");
    assert_eq!(html.charset, Some("iso-8859-1".to_string()));
    assert_eq!(html.format(), Some(Format::Html));
    let plain = content_type("Text/Plain");
    assert_eq!((plain.type_.as_str(), plain.subtype.as_str(), plain.charset), ("text", "plain", None));
    assert_eq!(content_type("TEXT/MARKDOWN").format(), Some(Format::Markdown));
    assert_eq!(content_type("application/pdf").format(), None);
    assert_eq!(content_type("application/html").format(), None);
    assert_eq!(content_type("image/svg+xml").format(), None);
}

#[test]
fn local_files_are_markdown_in_utf_8() {
    let parsed = content_type("text/markdown; charset=UTF-8");
    let fixed = ContentType::markdown();
    assert_eq!(parsed.type_, fixed.type_);
    assert_eq!(parsed.subtype, fixed.subtype);
    assert_eq!(parsed.charset, fixed.charset);
    assert_eq!(fixed.format(), Some(Format::Markdown));
}

#[test]
fn what_is_no_content_type_is_an_unrecognized_mime_type() {
    let err = ContentType::parse("garbage").unwrap_err();
    assert_eq!(err.tag, Tag::UnrecognizedMime);
    assert_eq!(lines(&err).len(), 2);
    assert_eq!(lines(&err)[0], "Unrecognized mime type");
}

#[test]
fn the_anchors_of_an_html_document() {
    let html = "<html><body><h1 id=\"top\">T</h1><a name=\"n\" id='i' href=\"#x\">a</a>\
                <p name=\"not\">p</p><div class=\"c\" id=\"d\" ></div><br id=\"b\" /></body></html>";
    assert_eq!(html_ids(html), vec!["top", "n", "i", "d", "b"]);
    assert!(html_ids("plain text").is_empty());
    assert!(html_ids("").is_empty());
}

#[test]
fn attribute_text_that_the_iterator_would_choke_on_is_passed_over() {
    assert!(!check_attributes("a=\u{e9}=\"x\""));
    assert!(!check_attributes("a=\u{e9}=''"));
    assert!(!check_attributes("id=\"y\" a=\u{e9}b='x' c"));
    assert!(!check_attributes("a=\"x\"b=\u{e9}=\"y\""));
    assert!(!check_attributes("\u{e9}=\u{e9}'=\"x\""));
    assert_eq!(
        html_ids("<p id=\"ok\"><a a=\u{e9}=\"x\" id=\"lost\"><b id=\"\u{e9}\">"),
        vec!["ok", "\u{e9}"]
    );
}

#[test]
fn attribute_text_with_wide_characters_is_read_wherever_it_can_be() {
    for text in [
        "",
        "=",
        "id=\"\u{e9}\" class=c",
        "id=\u{e9} class=c",
        "a=b=\"c\"",
        "id='x' b=\u{e9}",
        "alt=\u{e9} id=\"x\"",
        "a=\u{e9}=\"x",
        "a=b=\u{e9}=\"x\"",
        "a=\u{e9}='x=\"y\"",
        "=\u{e9}=\"x\"",
        "a=\u{e9}\"x\"",
        "\u{e9}=x\u{e9}'=\"x\"",
    ] {
        assert!(check_attributes(text), "{:?}", text);
        let _ = html_ids(&format!("<a {}>", text));
    }
    assert_eq!(html_ids("<img alt=\u{e9} id=\"x\">"), vec!["x"]);
    assert_eq!(html_ids("<p id='x' b=\u{e9} >"), vec!["x"]);
    assert_eq!(html_ids("<p a=b=\u{e9}=\"y\" id=\"z\">"), vec!["z"]);
}

#[test]
fn a_markdown_document_offers_its_headings() {
    let id = maker();
    let text = "# Existing\n\nSee [x](#existing).\n\n## Heading with `code`\n";
    let document = Document::parse(text.as_bytes(), &ContentType::markdown(), &id).unwrap();
    assert_eq!(document.ids, vec!["", "existing", "heading-with-code"]);
}

#[test]
fn an_html_document_offers_its_ids() {
    let id = maker();
    let bytes = b"<html><a name=\"pr\xE4st\">x</a><a id=\"same\"></a><p id=\"same\"></p></html>";
    let document = Document::parse(bytes, &content_type("text/html; charset=latin1"), &id).unwrap();
    assert_eq!(document.ids, vec!["", "pr\u{e4}st", "same"]);
}

#[test]
fn other_content_is_a_document_with_the_empty_anchor_alone() {
    let id = maker();
    let document = Document::parse(b"%PDF-1.4", &content_type("application/pdf"), &id).unwrap();
    assert_eq!(document.ids, vec![""]);
    let document = Document::parse(b"", &content_type("text/plain"), &id).unwrap();
    assert_eq!(document.ids, vec![""]);
}

#[test]
fn a_document_that_cannot_be_decoded_is_none() {
    let id = maker();
    let err = Document::parse(b"# \xff\xff\xff\xff", &ContentType::markdown(), &id).unwrap_err();
    assert_eq!(err.tag, Tag::DecodingError);
    let err = Document::parse(b"#", &ContentType::markdown(), &id).unwrap_err();
    assert_eq!(err.tag, Tag::IoError);
}

fn every_text(alphabet: &[&str], length: usize, prefix: &mut String, visit: &mut dyn FnMut(&str)) {
    visit(prefix);
    if length == 0 {
        return;
    }
    for piece in alphabet {
        let mark = prefix.len();
        prefix.push_str(piece);
        every_text(alphabet, length - 1, prefix, visit);
        prefix.truncate(mark);
    }
}

#[test]
fn no_attribute_text_trips_the_iterator() {
    let alphabet = ["a", "=", "\"", "'", " ", "\u{e9}"];
    let mut count = 0;
    every_text(&alphabet, 7, &mut String::new(), &mut |text| {
        let html = format!("<a {}>", text);
        let _ = html_ids(&html);
        count += 1;
    });
    assert!(count > 100_000);
}

#[test]
fn no_markup_trips_the_iterator() {
    let alphabet = ["<", ">", "a", "=", "\"", " ", "\u{4f60}", "/"];
    let mut count = 0;
    every_text(&alphabet, 6, &mut String::new(), &mut |text| {
        let _ = html_ids(text);
        count += 1;
    });
    assert!(count > 100_000);
}

#[test]
fn a_decoding_error_names_the_encoding_not_the_label() {
    let err = read_chars(b"abcd \xff\xfe and more", Some("unicode-1-1-utf-8".to_string())).unwrap_err();
    assert_eq!(err.tag, Tag::DecodingError);
    assert_eq!(lines(&err)[1], "  context: encoding = utf-8");
}

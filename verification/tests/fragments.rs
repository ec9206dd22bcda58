use std::sync::Arc;

use linky::error::Error;
use linky::error::Tag;
use linky::link::Link;
use linky::linky::Document;
use linky::linky::FragResolver;

fn lines(err: &Error) -> Vec<String> {
    let mut it = err.iter();
    let mut lines = Vec::new();
    while let Some(line) = it.next() {
        lines.push(line);
    }
    lines
}

#[test]
fn fragment() {
    assert_eq!(
        FragResolver::new()
            .fragment(&Document::from(&["abc"]), "abc")
            .map_err(|e| e.tag),
        Ok(())
    );
    assert_eq!(
        FragResolver::new()
            .fragment(&Document::new(), "")
            .map_err(|e| e.tag),
        Ok(())
    );
    assert_eq!(
        FragResolver::new()
            .fragment(&Document::empty(), "")
            .map_err(|e| e.tag),
        Ok(())
    );
    assert_eq!(
        FragResolver::from(&["prefix"])
            .fragment(&Document::from(&["prefix"]), "")
            .map_err(|e| e.tag),
        Ok(())
    );
    assert_eq!(
        FragResolver::new()
            .fragment(&Document::new(), "abc")
            .map_err(|e| e.tag),
        Err(Tag::NoFragment)
    );
    assert_eq!(
        FragResolver::new()
            .fragment(&Document::from(&["abc-123"]), "123")
            .map_err(|e| e.tag),
        Err(Tag::NoFragment)
    );
    assert_eq!(
        FragResolver::from(&["abc-"])
            .fragment(&Document::from(&["abc-123"]), "123")
            .map_err(|e| e.tag),
        Err(Tag::Prefixed)
    );
}

#[test]
fn find_prefix() {
    assert_eq!(
        FragResolver::new().find_prefix("123", &Document::from(&["123"])),
        Some("")
    );
    assert_eq!(
        FragResolver::from(&["abc-", "def-"]).find_prefix("123", &Document::from(&["def-123"])),
        Some("def-")
    );
    assert_eq!(
        FragResolver::from(&["abc-"]).find_prefix("123", &Document::from(&["def-123"])),
        None
    );
}

#[test]
fn the_first_configured_prefix_that_matches_wins() {
    let resolver = FragResolver::from(&["x-", "user-content-", "x-"]);
    let document = Document::from(&["user-content-a", "x-a"]);
    assert_eq!(resolver.find_prefix("a", &document), Some("x-"));
    let document = Document::from(&["user-content-a"]);
    assert_eq!(resolver.find_prefix("a", &document), Some("user-content-"));
}

#[test]
fn the_empty_fragment_resolves_against_every_document() {
    for resolver in [FragResolver::new(), FragResolver::from(&["abc-", ""])] {
        assert!(resolver.fragment(&Document::empty(), "").is_ok());
        assert!(resolver.fragment(&Document::new(), "").is_ok());
        assert!(resolver.fragment(&Document::from(&["x", "y"]), "").is_ok());
        let mut bare = Document::empty();
        bare.insert("abc-".to_string());
        assert!(resolver.fragment(&bare, "").is_ok());
        assert_eq!(resolver.fragment(&bare, "x").map_err(|e| e.tag), Err(Tag::NoFragment));
    }
}

#[test]
fn nothing_but_the_empty_fragment_resolves_against_a_document_without_anchors() {
    let resolver = FragResolver::from(&["abc-"]);
    for fragment in ["a", " ", "#", "A"] {
        assert_eq!(
            resolver.fragment(&Document::empty(), fragment).map_err(|e| e.tag),
            Err(Tag::NoFragment)
        );
    }
    let base = Link::Path("/tmp/a.md".to_string());
    let document = Some(Ok(Document::empty()));
    assert!(resolver.link(&document, &base, &Some("".to_string())).unwrap().is_ok());
}

#[test]
fn a_fragment_found_behind_a_prefix_names_the_prefix() {
    let err = FragResolver::from(&["abc-"])
        .fragment(&Document::from(&["abc-123"]), "123")
        .unwrap_err();
    assert_eq!(err.tag, Tag::Prefixed);
    assert_eq!(
        lines(&err),
        vec![
            "Fragment not found without prefix",
            "  context: fragment = #123",
            "  context: prefix = abc-",
        ]
    );
}

#[test]
fn a_fragment_found_in_lower_case_is_told_apart() {
    let err = FragResolver::new()
        .fragment(&Document::from(&["heading"]), "HEADING")
        .unwrap_err();
    assert_eq!(err.tag, Tag::CaseInsensitiveFragment);
    assert_eq!(
        lines(&err),
        vec![
            "Fragment not found case-sensitively",
            "  context: fragment = #HEADING",
            "  context: anchor = #heading",
        ]
    );
}

#[test]
fn the_lower_case_form_is_looked_up_without_prefixes() {
    let resolver = FragResolver::from(&["abc-"]);
    let document = Document::from(&["abc-heading"]);
    assert_eq!(
        resolver.fragment(&document, "heading").map_err(|e| e.tag),
        Err(Tag::Prefixed)
    );
    assert_eq!(
        resolver.fragment(&document, "HEADING").map_err(|e| e.tag),
        Err(Tag::NoFragment)
    );
}

#[test]
fn exact_wins_over_prefixed_and_prefixed_over_lower_case() {
    let resolver = FragResolver::from(&["p-"]);
    let all = Document::from(&["Ab", "p-Ab", "ab"]);
    assert!(resolver.fragment(&all, "Ab").is_ok());
    let two = Document::from(&["p-Ab", "ab"]);
    assert_eq!(resolver.fragment(&two, "Ab").map_err(|e| e.tag), Err(Tag::Prefixed));
    let one = Document::from(&["ab"]);
    assert_eq!(
        resolver.fragment(&one, "Ab").map_err(|e| e.tag),
        Err(Tag::CaseInsensitiveFragment)
    );
}

#[test]
fn a_missing_fragment_is_reported_with_its_text() {
    let err = FragResolver::new().fragment(&Document::new(), "abc").unwrap_err();
    assert_eq!(err.tag, Tag::NoFragment);
    assert_eq!(lines(&err), vec!["Fragment not found", "  context: fragment = #abc"]);
}

#[test]
fn lower_casing_follows_unicode() {
    let document = Document::from(&["\u{e4}ntligen"]);
    assert_eq!(
        FragResolver::new().fragment(&document, "\u{c4}NTLIGEN").map_err(|e| e.tag),
        Err(Tag::CaseInsensitiveFragment)
    );
}

#[test]
fn documents_hold_each_anchor_once() {
    let mut document = Document::from(&["a", "b", "a", ""]);
    assert_eq!(document.ids, vec!["", "a", "b"]);
    assert!(document.contains("a"));
    assert!(!document.contains("c"));
    document.insert("c".to_string());
    document.insert("a".to_string());
    assert_eq!(document.ids, vec!["", "a", "b", "c"]);
    assert!(Document::empty().ids.is_empty());
    assert_eq!(Document::new().ids, vec![""]);
}

#[test]
fn nothing_is_checked_where_nothing_was_fetched() {
    let resolver = FragResolver::new();
    let base = Link::Path("/tmp/a.md".to_string());
    assert!(resolver.link(&None, &base, &Some("x".to_string())).is_none());
}

#[test]
fn a_failed_fetch_is_handed_to_every_link() {
    let resolver = FragResolver::new();
    let base = Link::Url("http://example.com/".to_string());
    let failure = Arc::new(Tag::HttpStatus(404).as_error().context("link = http://example.com/".to_string()));
    let document = Some(Err(failure.clone()));
    for fragment in [None, Some("x".to_string())] {
        let got = resolver.link(&document, &base, &fragment).unwrap().unwrap_err();
        assert!(Arc::ptr_eq(&got, &failure));
    }
}

#[test]
fn a_link_without_fragment_is_fine_once_the_document_is_there() {
    let resolver = FragResolver::new();
    let base = Link::Path("/tmp/a.md".to_string());
    let document = Some(Ok(Document::empty()));
    assert!(resolver.link(&document, &base, &None).unwrap().is_ok());
}

#[test]
fn a_failed_fragment_names_the_link_last() {
    let resolver = FragResolver::new();
    let base = Link::Path("/tmp/a.md".to_string());
    let document = Some(Ok(Document::from(&["existing"])));
    assert!(resolver.link(&document, &base, &Some("existing".to_string())).unwrap().is_ok());
    let err = resolver.link(&document, &base, &Some("missing".to_string())).unwrap().unwrap_err();
    assert_eq!(err.tag, Tag::NoFragment);
    assert_eq!(
        lines(&err),
        vec![
            "Fragment not found",
            "  context: link = /tmp/a.md",
            "  context: fragment = #missing",
        ]
    );
}

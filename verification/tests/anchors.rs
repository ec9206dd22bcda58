use linky::anchor::anchor;
use linky::anchor::has_md_anchor;
use linky::anchor::title_anchors;
use linky::html::has_html_anchor;
use linky::markdown::MdEvent;

#[test]
fn letters_and_numbers_stay_and_the_rest_becomes_hyphens() {
    assert_eq!(anchor("Hello, World!"), "hello-world");
    assert_eq!(anchor("  Leading and trailing  "), "leading-and-trailing");
    assert_eq!(anchor("a_b.c"), "a-b-c");
    assert_eq!(anchor("already-hyphened"), "already-hyphened");
    assert_eq!(anchor("a -- b"), "a-b");
    assert_eq!(anchor("Version 2.0"), "version-2-0");
    assert_eq!(anchor(""), "");
    assert_eq!(anchor("---"), "");
    assert_eq!(anchor("!"), "");
    assert_eq!(anchor("x"), "x");
}

#[test]
fn text_is_normalized_before_it_is_looked_at() {
    assert_eq!(anchor("\u{fb01}ne \u{2460}"), "fine-1");
    assert_eq!(anchor("\u{dc}n\u{ef}code"), "\u{fc}n\u{ef}code");
    assert_eq!(anchor("U\u{308}ber"), "\u{fc}ber");
    assert_eq!(anchor("\u{4f60}\u{597d}\u{ff01}\u{ff11}"), "\u{4f60}\u{597d}-1");
}

#[test]
fn the_first_text_of_a_heading_gives_its_anchor() {
    let events = vec![
        MdEvent::Text("Before".to_string()),
        MdEvent::HeadingStart,
        MdEvent::Code("code".to_string()),
        MdEvent::Text("Heading with ".to_string()),
        MdEvent::Text("more".to_string()),
        MdEvent::HeadingEnd,
        MdEvent::HeadingStart,
        MdEvent::HeadingEnd,
        MdEvent::Text("Body Text".to_string()),
        MdEvent::HeadingStart,
        MdEvent::HeadingStart,
        MdEvent::Text("Last One!".to_string()),
    ];
    assert_eq!(title_anchors(&events), vec!["heading-with", "body-text", "last-one"]);
}

#[test]
fn a_markdown_document_is_searched_for_an_anchor() {
    let text = "# Hello World\n\ntext\n\n## Second: part\n";
    assert!(has_md_anchor(text, "hello-world"));
    assert!(has_md_anchor(text, "second-part"));
    assert!(!has_md_anchor(text, "Hello World"));
    assert!(!has_md_anchor(text, "text"));
    assert!(!has_md_anchor("", ""));
}

#[test]
fn an_html_document_is_searched_for_an_anchor_of_a_link() {
    let html = "<p id=\"para\">x</p><a name=\"top\" href=\"#z\">t</a><a id='mid' >m</a><b name=\"bold\"></b>";
    assert!(has_html_anchor(html, "top"));
    assert!(has_html_anchor(html, "mid"));
    assert!(!has_html_anchor(html, "para"));
    assert!(!has_html_anchor(html, "bold"));
    assert!(!has_html_anchor(html, "#z"));
    assert!(!has_html_anchor(html, ""));
    assert!(!has_html_anchor("", "top"));
    assert!(!has_html_anchor("<a a=\u{e9}=\"x\" id=\"lost\">", "lost"));
}

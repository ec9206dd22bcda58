use linky::markdown::headings;
use linky::markdown::markdown_ids;
use linky::markdown::MdEvent;
use linky::slug::heading_anchors;
use linky::slug::slug_of;
use linky::GithubId;
use linky::Headers;

fn maker() -> GithubId {
    GithubId::new().expect("the punctuation pattern is accepted")
}

#[test]
fn a_heading_becomes_its_slug() {
    let id = maker();
    assert_eq!(id.to_id("Existing", 0), "existing");
    assert_eq!(id.to_id("Heading with `code`", 0), "heading-with-code");
    assert_eq!(id.to_id("Hello, World!", 0), "hello-world");
    assert_eq!(id.to_id("a  b", 0), "a--b");
    assert_eq!(id.to_id("snake_case and kebab-case", 0), "snake_case-and-kebab-case");
    assert_eq!(id.to_id("", 0), "");
}

#[test]
fn word_characters_are_those_of_unicode() {
    let id = maker();
    assert_eq!(id.to_id("\u{c4}ntligen stod pr\u{e4}sten!", 0), "\u{c4}ntligen-stod-pr\u{e4}sten");
    assert_eq!(id.to_id("\u{4f60}\u{597d}\u{ff01} 123", 0), "\u{4f60}\u{597d}-123");
}

#[test]
fn only_ascii_capitals_become_small() {
    assert_eq!(slug_of("ABC \u{c9}", 0), "abc-\u{c9}");
    assert_eq!(slug_of("AbC", 3), "abc-3");
    assert_eq!(slug_of("", 12), "-12");
}

#[test]
fn repeats_are_numbered() {
    let id = maker();
    assert_eq!(id.to_id("Existing", 1), "existing-1");
    assert_eq!(id.to_id("Existing", 2), "existing-2");
    assert_eq!(id.to_id("Existing", 10), "existing-10");
    assert_eq!(id.to_id("Existing", 1234567), "existing-1234567");
}

#[test]
fn the_registrar_counts_by_the_text_as_written() {
    let mut headers = Headers::new();
    assert_eq!(headers.register("Intro".to_string()), 0);
    assert_eq!(headers.register("Intro".to_string()), 1);
    assert_eq!(headers.register("intro".to_string()), 0);
    assert_eq!(headers.register("Intro!".to_string()), 0);
    assert_eq!(headers.register("Intro".to_string()), 2);
    assert_eq!(headers.register("intro".to_string()), 1);
}

#[test]
fn the_same_heading_again_and_again() {
    let id = maker();
    let headings: Vec<String> = (0..12).map(|_| "Same Heading".to_string()).collect();
    let ids = heading_anchors(&headings, &id);
    let expected: Vec<String> = (0..12)
        .map(|n| if n == 0 { "same-heading".to_string() } else { format!("same-heading-{}", n) })
        .collect();
    assert_eq!(ids, expected);
    assert_eq!(heading_anchors(&headings, &id), expected);
}

#[test]
fn headings_that_differ_in_punctuation_are_counted_apart() {
    let id = maker();
    let headings = vec!["Intro".to_string(), "Intro!".to_string(), "Intro".to_string()];
    assert_eq!(heading_anchors(&headings, &id), vec!["intro", "intro", "intro-1"]);
}

#[test]
fn heading_text_is_gathered_inside_headings_only() {
    let events = vec![
        MdEvent::Text("before".to_string()),
        MdEvent::HeadingStart,
        MdEvent::Text("Heading with ".to_string()),
        MdEvent::Code("code".to_string()),
        MdEvent::Other,
        MdEvent::Text("!".to_string()),
        MdEvent::HeadingEnd,
        MdEvent::Code("outside".to_string()),
        MdEvent::LinkStart("x".to_string(), 3),
        MdEvent::HeadingStart,
        MdEvent::HeadingEnd,
    ];
    assert_eq!(headings(&events), vec!["Heading with `code`!", ""]);
}

#[test]
fn the_anchors_of_a_markdown_document() {
    let id = maker();
    let text = "# Heading\n\ntext with `code`\n\n## Heading with `code`\n\n### Heading\n\nSetext\n======\n";
    assert_eq!(
        markdown_ids(text, &id),
        vec!["heading", "heading-with-code", "heading-1", "setext"]
    );
    assert!(markdown_ids("no heading here", &id).is_empty());
}

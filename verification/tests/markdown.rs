use linky::md_records;
use linky::MdLinkParser;

const EXAMPLE: &str = "# Example\n\
\n\
* [absolute](https://github.com/mattias-p/linky/blob/master/example_site/path/to/other.md)\n\
* [absolute with fragment](https://github.com/mattias-p/linky/blob/master/example_site/path/to/other.md#existing)\n\
* [local](other.md)\n\
* [local, missing](non-existing.md)\n\
* [local with fragment](other.md#existing)\n\
* [local with missing fragment](other.md#non-existing)\n\
* [in this document](#heading)\n\
* [missing in this document](#non-existing)\n\
* [heading with code](#heading-with-code)\n\
* [heading in capitals](#HEADING)\n\
\n\
## Heading\n\
\n\
## Heading with `code`\n";

#[test]
fn extract_links() {
    let buffer = EXAMPLE;
    let mut parser = MdLinkParser::new(buffer).expect("links that end one after the other");
    assert_eq!(
        parser.next(),
        Some((
            3,
            "https://github.com/mattias-p/linky/blob/master/example_site/path/to/other.md"
                .into()
        ))
    );
    assert_eq!(parser.next(), Some((4, "https://github.com/mattias-p/linky/blob/master/example_site/path/to/other.md#existing".into())));
    assert_eq!(parser.next(), Some((5, "other.md".into())));
    assert_eq!(parser.next(), Some((6, "non-existing.md".into())));
    assert_eq!(parser.next(), Some((7, "other.md#existing".into())));
    assert_eq!(parser.next(), Some((8, "other.md#non-existing".into())));
    assert_eq!(parser.next(), Some((9, "#heading".into())));
    assert_eq!(parser.next(), Some((10, "#non-existing".into())));
    assert_eq!(parser.next(), Some((11, "#heading-with-code".into())));
    assert_eq!(parser.next(), Some((12, "#HEADING".into())));
    assert_eq!(parser.next(), None);
}

#[test]
fn lines_are_counted_from_one() {
    let mut parser = MdLinkParser::new("[a](x) and [b](y)\n").unwrap();
    assert_eq!(parser.next(), Some((1, "x".to_string())));
    assert_eq!(parser.next(), Some((1, "y".to_string())));
    assert_eq!(parser.next(), None);
    assert_eq!(parser.next(), None);
}

#[test]
fn a_link_that_spans_lines_counts_where_it_ends() {
    let mut parser = MdLinkParser::new("text\n\n[a\nb\nc](x) [d](y)\n").unwrap();
    assert_eq!(parser.next(), Some((5, "x".to_string())));
    assert_eq!(parser.next(), Some((5, "y".to_string())));
    assert_eq!(parser.next(), None);
}

#[test]
fn wide_characters_do_not_shift_the_lines() {
    let mut parser = MdLinkParser::new("\u{e4}\u{4f60}\n\n\u{597d} [a](\u{e4}.md)\n").unwrap();
    assert_eq!(parser.next(), Some((3, "\u{e4}.md".to_string())));
}

#[test]
fn a_document_without_links() {
    let mut parser = MdLinkParser::new("# nothing\n\nhere\n").unwrap();
    assert_eq!(parser.next(), None);
    assert!(md_records("a.md", "").unwrap().is_empty());
}

#[test]
fn the_records_of_a_document() {
    let records = md_records("docs/a.md", "one\n[x](y.md#z)\n\n![image](i.png) [w](http://e.com)\n").unwrap();
    let got: Vec<(String, usize, String)> =
        records.into_iter().map(|r| (r.doc_path, r.doc_line, r.link)).collect();
    assert_eq!(
        got,
        vec![
            ("docs/a.md".to_string(), 2, "y.md#z".to_string()),
            ("docs/a.md".to_string(), 4, "http://e.com".to_string()),
        ]
    );
}

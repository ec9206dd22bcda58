use std::sync::Arc;

use linky::groups::group_all;
use linky::groups::resolve_group;
use linky::fetch::Action;
use linky::fetch::Event;
use linky::report::error_lines;
use linky::report::is_muted;
use linky::report::result_line;
use linky::report::result_tag;
use linky::md_records;
use linky::print_result;
use linky::Fetch;
use linky::FragResolver;
use linky::GithubId;
use linky::Orderer;
use linky::Record;
use linky::Tag;

fn record() -> Record {
    Record { doc_path: "docs/a.md".to_string(), doc_line: 12, link: "other.md#x".to_string() }
}

#[test]
fn the_result_line() {
    assert_eq!(result_line(&record(), &Some(Tag::Success), false), "docs/a.md:12: OK other.md#x");
    assert_eq!(result_line(&record(), &Some(Tag::HttpStatus(404)), false), "docs/a.md:12: HTTP_404 other.md#x");
    assert_eq!(result_line(&record(), &None, false), "docs/a.md:12:  other.md#x");
    assert_eq!(result_line(&record(), &Some(Tag::NoFragment), true), "other.md#x");
}

#[test]
fn a_result_line_reads_back_as_its_record() {
    let line = result_line(&record(), &Some(Tag::NoFragment), false);
    let back = Record::from_str(&line).unwrap();
    assert_eq!((back.doc_path, back.doc_line, back.link), ("docs/a.md".to_string(), 12, "other.md#x".to_string()));
}

#[test]
fn the_tag_of_a_result() {
    assert_eq!(result_tag(&None), None);
    assert_eq!(result_tag(&Some(Ok(()))), Some(Tag::Success));
    assert_eq!(result_tag(&Some(Err(Arc::new(Tag::Timeout.as_error())))), Some(Tag::Timeout));
}

#[test]
fn muted_tags_say_nothing() {
    let silence = [Tag::Success, Tag::HttpStatus(404)];
    assert!(is_muted(&Some(Tag::Success), &silence));
    assert!(is_muted(&Some(Tag::HttpStatus(404)), &silence));
    assert!(!is_muted(&Some(Tag::HttpStatus(403)), &silence));
    assert!(!is_muted(&None, &silence));
    assert!(!is_muted(&Some(Tag::Success), &[]));
    assert!(print_result(&record(), &Some(Ok(())), &silence, false).is_none());
    let report = print_result(&record(), &None, &silence, false).unwrap();
    assert_eq!(report.line, "docs/a.md:12:  other.md#x");
    assert!(report.warnings.is_empty());
}

#[test]
fn a_failure_is_explained_before_its_line() {
    let err = Arc::new(
        Tag::NoFragment
            .as_error()
            .context("fragment = #x".to_string())
            .context("link = /docs/other.md".to_string()),
    );
    assert_eq!(
        error_lines(&err),
        vec!["Fragment not found", "  context: link = /docs/other.md", "  context: fragment = #x"]
    );
    let report = print_result(&record(), &Some(Err(err)), &[Tag::Success], false).unwrap();
    assert_eq!(
        report.warnings,
        vec!["Fragment not found", "  context: link = /docs/other.md", "  context: fragment = #x"]
    );
    assert_eq!(report.line, "docs/a.md:12: NO_FRAG other.md#x");
    let report = print_result(&record(), &Some(Ok(())), &[], true).unwrap();
    assert_eq!(report.line, "other.md#x");
    assert!(report.warnings.is_empty());
}

/// Runs the whole pipeline over documents held in memory: `files` are the
/// local files by their absolute path, `start` is the one whose links are
/// checked. The groups are worked off last to first.
fn check(files: &[(&str, &str)], start: &str) -> Vec<String> {
    let id = GithubId::new().unwrap();
    let resolver = FragResolver::new();
    let text = files.iter().find(|(path, _)| *path == start).unwrap().1;
    let entries: Vec<_> = md_records(start, text)
        .unwrap()
        .into_iter()
        .map(|record| {
            let (link, fragment) = record.to_link(start, &None).map_err(|e| e.0).unwrap();
            (record, link, fragment)
        })
        .collect();
    let mut orderer = Orderer::new();
    let mut lines = Vec::new();
    for group in group_all(entries).into_vec().into_iter().rev() {
        let mut fetch = Fetch::new(group.link.clone(), false);
        let mut action = fetch.step(Event::Start, &id);
        let document = loop {
            let event = match action {
                Action::Stat(_) => Event::IsDirectory(false),
                Action::Open(path) => match files.iter().find(|(p, _)| *p == path) {
                    Some((_, text)) => Event::Content(text.as_bytes().to_vec()),
                    None => Event::OpenFailed(linky::fetch::IoFailure {
                        not_found: true,
                        cause: vec!["missing".to_string()],
                    }),
                },
                Action::Done(result) => break result,
                other => panic!("{:?}", other),
            };
            assert!(fetch.accepts(&event));
            action = fetch.step(event, &id);
        };
        let document = Some(document);
        for item in resolve_group(&resolver, &document, group) {
            for (record, result) in orderer.push(item) {
                if let Some(report) = print_result(&record, &result, &[], false) {
                    lines.push(report.line);
                }
            }
        }
    }
    lines
}

#[test]
fn a_link_to_a_heading_of_the_same_file_resolves() {
    let files = [("/site/example.md", "## Existing\n\n[x](#existing)\n")];
    assert_eq!(check(&files, "/site/example.md"), vec!["/site/example.md:3: OK #existing"]);
}

#[test]
fn a_link_to_a_heading_that_another_file_lacks_does_not_resolve() {
    let files = [
        ("/site/example.md", "[x](other.md#missing)\n"),
        ("/site/other.md", "# Existing\n"),
    ];
    assert_eq!(check(&files, "/site/example.md"), vec!["/site/example.md:1: NO_FRAG other.md#missing"]);
}

#[test]
fn the_results_come_in_the_order_of_the_links() {
    let files = [
        (
            "/site/example.md",
            "# Heading\n\n[a](other.md)\n[b](non-existing.md)\n[c](other.md#existing)\n[d](#heading)\n\
             [e](other.md#non-existing)\n[f](#HEADING)\n[g](#non-existing)\n[h](./other.md#existing)\n",
        ),
        ("/site/other.md", "# Existing\n"),
        ("/site/./other.md", "# Existing\n"),
    ];
    assert_eq!(
        check(&files, "/site/example.md"),
        vec![
            "/site/example.md:3: OK other.md",
            "/site/example.md:4: NO_DOC non-existing.md",
            "/site/example.md:5: OK other.md#existing",
            "/site/example.md:6: OK #heading",
            "/site/example.md:7: NO_FRAG other.md#non-existing",
            "/site/example.md:8: CASE_FRAG #HEADING",
            "/site/example.md:9: NO_FRAG #non-existing",
            "/site/example.md:10: OK ./other.md#existing",
        ]
    );
}

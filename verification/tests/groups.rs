use linky::groups::group_all;
use linky::groups::Group;
use linky::groups::Groups;
use linky::group_fragments;
use linky::Link;
use linky::Record;

fn record(line: usize, link: &str) -> Record {
    Record { doc_path: "doc.md".to_string(), doc_line: line, link: link.to_string() }
}

fn summary(groups: &[Group]) -> Vec<(Link, Vec<(usize, Option<String>, String)>)> {
    groups
        .iter()
        .map(|g| {
            (
                g.link.clone(),
                g.members
                    .iter()
                    .map(|(index, fragment, record)| (*index, fragment.clone(), record.link.clone()))
                    .collect(),
            )
        })
        .collect()
}

#[test]
fn links_with_one_target_share_a_group() {
    let a = Link::Path("/site/other.md".to_string());
    let b = Link::Url("http://example.com/".to_string());
    let entries = vec![
        (record(1, "other.md#x"), a.clone(), Some("x".to_string())),
        (record(2, "http://example.com"), b.clone(), None),
        (record(3, "./other.md"), a.clone(), None),
        (record(4, "HTTP://EXAMPLE.COM/#top"), b.clone(), Some("top".to_string())),
    ];
    let groups = group_all(entries).into_vec();
    assert_eq!(
        summary(&groups),
        vec![
            (
                a,
                vec![
                    (0, Some("x".to_string()), "other.md#x".to_string()),
                    (2, None, "./other.md".to_string()),
                ]
            ),
            (
                b,
                vec![
                    (1, None, "http://example.com".to_string()),
                    (3, Some("top".to_string()), "HTTP://EXAMPLE.COM/#top".to_string()),
                ]
            ),
        ]
    );
}

#[test]
fn a_url_and_a_path_that_read_alike_are_two_targets() {
    let entries = vec![
        (record(1, "a"), Link::Path("x".to_string()), None),
        (record(2, "b"), Link::Url("x".to_string()), None),
    ];
    assert_eq!(group_all(entries).len(), 2);
}

#[test]
fn no_links_no_groups() {
    assert_eq!(group_all(Vec::new()).len(), 0);
}

#[test]
fn one_link_at_a_time() {
    let a = Link::Path("/a".to_string());
    let groups = group_fragments(Groups::new(), (7, (record(1, "a"), a.clone(), None)));
    let groups = group_fragments(groups, (9, (record(2, "a#b"), a.clone(), Some("b".to_string()))));
    let groups = groups.into_vec();
    assert_eq!(
        summary(&groups),
        vec![(a, vec![(7, None, "a".to_string()), (9, Some("b".to_string()), "a#b".to_string())])]
    );
}

#[test]
fn links_that_normalize_alike_are_fetched_once() {
    let entries: Vec<_> = [
        "HTTP://EXAMPLE.COM#a",
        "http://example.com/",
        "http://example.com:80/x/..#b",
        "other.md#a",
        "./../to/other.md",
        "other.md",
        "http://example.com/other.md",
    ]
    .iter()
    .enumerate()
    .map(|(line, text)| {
        let record = record(line + 1, text);
        let (link, fragment) = record.to_link("/site/path/to/example.md", &None).map_err(|e| e.0).unwrap();
        (record, link, fragment)
    })
    .collect();
    let groups = group_all(entries).into_vec();
    let targets: Vec<(String, Vec<usize>)> = groups
        .iter()
        .map(|g| (g.link.to_string(), g.members.iter().map(|m| m.0).collect()))
        .collect();
    assert_eq!(
        targets,
        vec![
            ("http://example.com/".to_string(), vec![0, 1, 2]),
            ("/site/path/to/other.md".to_string(), vec![3, 5]),
            ("/site/path/to/./../to/other.md".to_string(), vec![4]),
            ("http://example.com/other.md".to_string(), vec![6]),
        ]
    );
}

use std::sync::Arc;

use linky::error::Error;
use linky::fetch::has_web_scheme;
use linky::fetch::judge;
use linky::fetch::Action;
use linky::fetch::Event;
use linky::fetch::HeaderText;
use linky::fetch::IoFailure;
use linky::fetch::Redirect;
use linky::fetch::TransportFailure;
use linky::Document;
use linky::Fetch;
use linky::GithubId;
use linky::Link;
use linky::Tag;

fn maker() -> GithubId {
    GithubId::new().expect("the punctuation pattern is accepted")
}

fn lines(err: &Error) -> Vec<String> {
    let mut it = err.iter();
    let mut lines = Vec::new();
    while let Some(line) = it.next() {
        lines.push(line);
    }
    lines
}

fn step(fetch: &mut Fetch, event: Event) -> Action {
    assert!(fetch.accepts(&event));
    fetch.step(event, &maker())
}

fn done(action: Action) -> Result<Document, Arc<Error>> {
    match action {
        Action::Done(result) => result,
        other => panic!("not done: {:?}", other),
    }
}

fn failure(action: Action) -> Arc<Error> {
    done(action).unwrap_err()
}

fn missing() -> IoFailure {
    IoFailure { not_found: true, cause: vec!["No such file or directory (os error 2)".to_string()] }
}

fn denied() -> IoFailure {
    IoFailure { not_found: false, cause: vec!["Permission denied (os error 13)".to_string()] }
}

fn path(text: &str) -> Link {
    Link::Path(text.to_string())
}

fn url(text: &str) -> Link {
    Link::Url(text.to_string())
}

fn response(status: u16, redirects: Vec<(u16, &str)>, content_type: Option<&str>) -> Event {
    Event::Response {
        status,
        redirects: redirects
            .into_iter()
            .map(|(status, url)| Redirect { status, url: url.to_string() })
            .collect(),
        content_type: match content_type {
            Some(text) => HeaderText::Text(text.to_string()),
            None => HeaderText::Missing,
        },
    }
}

#[test]
fn a_local_file_is_asked_about_opened_and_read_as_markdown() {
    let mut fetch = Fetch::new(path("/site/a.md"), false);
    assert!(matches!(step(&mut fetch, Event::Start), Action::Stat(p) if p == "/site/a.md"));
    assert!(matches!(step(&mut fetch, Event::IsDirectory(false)), Action::Open(p) if p == "/site/a.md"));
    let document = done(step(&mut fetch, Event::Content(b"# Existing\n".to_vec()))).unwrap();
    assert_eq!(document.ids, vec!["", "existing"]);
    assert!(!fetch.accepts(&Event::Start));
    assert!(!fetch.accepts(&Event::Content(Vec::new())));
}

#[test]
fn a_path_that_is_not_absolute_is_refused_at_once() {
    let mut fetch = Fetch::new(path("docs/a.md"), false);
    let err = failure(step(&mut fetch, Event::Start));
    assert_eq!(err.tag, Tag::Absolute);
    assert_eq!(lines(&err), vec!["Unable to handle absolute path", "  context: link = docs/a.md"]);
}

#[test]
fn a_directory_is_no_document() {
    let mut fetch = Fetch::new(path("/site"), false);
    step(&mut fetch, Event::Start);
    let err = failure(step(&mut fetch, Event::IsDirectory(true)));
    assert_eq!(err.tag, Tag::Directory);
    assert_eq!(lines(&err), vec!["Document is a directory", "  context: link = /site"]);
}

#[test]
fn a_missing_file_is_a_missing_document() {
    let mut fetch = Fetch::new(path("/site/a%20b.md"), false);
    step(&mut fetch, Event::Start);
    step(&mut fetch, Event::IsDirectory(false));
    let err = failure(step(&mut fetch, Event::OpenFailed(missing())));
    assert_eq!(err.tag, Tag::NoDocument);
    assert_eq!(
        lines(&err),
        vec![
            "Document not found",
            "  context: link = /site/a%20b.md",
            "  caused by: No such file or directory (os error 2)",
        ]
    );
}

#[test]
fn the_decoded_path_is_tried_once() {
    let mut fetch = Fetch::new(path("/site/a%20b.md"), true);
    step(&mut fetch, Event::Start);
    step(&mut fetch, Event::IsDirectory(false));
    assert!(matches!(step(&mut fetch, Event::OpenFailed(missing())), Action::Open(p) if p == "/site/a b.md"));
    let err = failure(step(&mut fetch, Event::OpenFailed(denied())));
    assert_eq!(err.tag, Tag::IoError);
    assert_eq!(lines(&err)[2], "  caused by: Permission denied (os error 13)");

    let mut fetch = Fetch::new(path("/site/a%20b.md"), true);
    step(&mut fetch, Event::Start);
    step(&mut fetch, Event::IsDirectory(false));
    step(&mut fetch, Event::OpenFailed(missing()));
    let document = done(step(&mut fetch, Event::Content(b"## Here\n".to_vec()))).unwrap();
    assert_eq!(document.ids, vec!["", "here"]);
}

#[test]
fn a_path_that_does_not_decode_fails_with_the_first_error() {
    let mut fetch = Fetch::new(path("/site/%ff.md"), true);
    step(&mut fetch, Event::Start);
    step(&mut fetch, Event::IsDirectory(false));
    let err = failure(step(&mut fetch, Event::OpenFailed(missing())));
    assert_eq!(err.tag, Tag::NoDocument);
}

#[test]
fn a_failed_read_is_an_io_error() {
    let mut fetch = Fetch::new(path("/site/a.md"), false);
    step(&mut fetch, Event::Start);
    step(&mut fetch, Event::IsDirectory(false));
    let err = failure(step(&mut fetch, Event::ReadFailed(denied())));
    assert_eq!(err.tag, Tag::IoError);
}

#[test]
fn only_http_and_https_are_fetched() {
    assert!(has_web_scheme("http://example.com/"));
    assert!(has_web_scheme("https://example.com/a:b"));
    assert!(!has_web_scheme("ftp://example.com/"));
    assert!(!has_web_scheme("mailto:a@example.com"));
    assert!(!has_web_scheme("httpx://example.com/"));
    assert!(!has_web_scheme("http"));
    let mut fetch = Fetch::new(url("ftp://example.com/a"), false);
    let err = failure(step(&mut fetch, Event::Start));
    assert_eq!(err.tag, Tag::Protocol);
    assert_eq!(lines(&err), vec!["Unhandled protocol", "  context: link = ftp://example.com/a"]);
}

#[test]
fn a_url_is_requested_and_its_body_read() {
    let mut fetch = Fetch::new(url("https://example.com/a"), false);
    assert!(matches!(step(&mut fetch, Event::Start), Action::Get(u) if u == "https://example.com/a"));
    assert!(matches!(
        step(&mut fetch, response(200, vec![], Some("text/html; charset=utf-8"))),
        Action::ReadBody
    ));
    let document = done(step(&mut fetch, Event::Content(b"<a name=\"top\">x</a>".to_vec()))).unwrap();
    assert_eq!(document.ids, vec!["", "top"]);
}

#[test]
fn the_body_of_other_content_is_not_read() {
    let mut fetch = Fetch::new(url("https://example.com/a.pdf"), false);
    step(&mut fetch, Event::Start);
    let document = done(step(&mut fetch, response(200, vec![], Some("application/pdf")))).unwrap();
    assert_eq!(document.ids, vec![""]);
}

#[test]
fn a_status_that_is_no_success_is_reported_by_its_number() {
    let mut fetch = Fetch::new(url("https://example.com/gone"), false);
    step(&mut fetch, Event::Start);
    let err = failure(step(&mut fetch, response(404, vec![], Some("text/html"))));
    assert_eq!(err.tag, Tag::HttpStatus(404));
    assert_eq!(
        lines(&err),
        vec!["Unexpected HTTP status 404 Not Found", "  context: link = https://example.com/gone"]
    );
}

#[test]
fn a_redirect_is_never_a_success() {
    let mut fetch = Fetch::new(url("http://example.com/old"), false);
    step(&mut fetch, Event::Start);
    let err = failure(step(
        &mut fetch,
        response(
            200,
            vec![(301, "http://example.com/new"), (302, "https://example.com/newer")],
            Some("text/html"),
        ),
    ));
    assert_eq!(err.tag, Tag::HttpStatus(301));
    assert_eq!(
        lines(&err),
        vec![
            "Unexpected HTTP status 301 Moved Permanently",
            "  context: link = http://example.com/old",
            "  context: redirect(301) = http://example.com/new",
            "  context: redirect(302) = https://example.com/newer",
        ]
    );
}

#[test]
fn a_redirect_that_was_not_followed_is_reported_by_its_own_status() {
    let err = judge(
        302,
        &vec![Redirect { status: 302, url: "http://example.com/new".to_string() }],
        HeaderText::Missing,
    )
    .unwrap_err();
    assert_eq!(err.tag, Tag::HttpStatus(302));
    assert!(err.msgs.is_empty());
}

#[test]
fn a_response_without_content_type_has_no_mime_type() {
    let err = judge(200, &vec![], HeaderText::Missing).unwrap_err();
    assert_eq!(err.tag, Tag::NoMime);
    let err = judge(200, &vec![], HeaderText::Unreadable(vec!["not text".to_string()])).unwrap_err();
    assert_eq!(err.tag, Tag::HttpError);
    assert_eq!(lines(&err), vec!["HTTP error", "  caused by: not text"]);
    let err = judge(200, &vec![], HeaderText::Text("nonsense".to_string())).unwrap_err();
    assert_eq!(err.tag, Tag::UnrecognizedMime);
    let found = judge(299, &vec![], HeaderText::Text("text/markdown".to_string())).unwrap();
    assert_eq!(found.subtype, "markdown");
    assert_eq!(judge(199, &vec![], HeaderText::Missing).unwrap_err().tag, Tag::HttpStatus(199));
    assert_eq!(judge(300, &vec![], HeaderText::Missing).unwrap_err().tag, Tag::HttpStatus(300));
}

#[test]
fn a_failed_request_is_a_timeout_or_an_http_error() {
    for (timed_out, tag) in [(true, Tag::Timeout), (false, Tag::HttpError)] {
        let mut fetch = Fetch::new(url("http://example.com/"), false);
        step(&mut fetch, Event::Start);
        let err = failure(step(
            &mut fetch,
            Event::RequestFailed(TransportFailure {
                timed_out,
                cause: vec!["error sending request".to_string(), "connection refused".to_string()],
            }),
        ));
        assert_eq!(err.tag, tag);
        assert_eq!(
            lines(&err)[1..],
            [
                "  context: link = http://example.com/",
                "  caused by: error sending request",
                "  caused by: connection refused",
            ]
        );
    }
}

#[test]
fn events_out_of_turn_are_not_accepted() {
    let fetch = Fetch::new(path("/a"), false);
    assert!(fetch.accepts(&Event::Start));
    assert!(!fetch.accepts(&Event::IsDirectory(false)));
    assert!(!fetch.accepts(&Event::Content(Vec::new())));
    assert!(!fetch.accepts(&response(200, vec![], None)));
    let mut fetch = Fetch::new(url("http://example.com/"), false);
    step(&mut fetch, Event::Start);
    assert!(!fetch.accepts(&Event::Start));
    assert!(!fetch.accepts(&Event::OpenFailed(missing())));
    assert!(!fetch.accepts(&Event::Content(Vec::new())));
    assert!(fetch.accepts(&response(200, vec![], None)));
}

#[test]
fn the_log_keeps_the_hops_of_one_request_in_order() {
    let mut log = linky::fetch::RedirectLog::new();
    assert!(log.hops().is_empty());
    log.record(301, "http://example.com/a".to_string());
    log.record(302, "http://example.com/b".to_string());
    let hops: Vec<(u16, String)> = log.hops().into_iter().map(|h| (h.status, h.url)).collect();
    assert_eq!(
        hops,
        vec![(301, "http://example.com/a".to_string()), (302, "http://example.com/b".to_string())]
    );
    assert_eq!(log.hops().len(), 2);
    log.clear();
    assert!(log.hops().is_empty());
    log.record(307, "http://example.com/c".to_string());
    assert_eq!(log.hops().len(), 1);
}

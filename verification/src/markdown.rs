//! Markdown as a stream of events, and what is read off it: the texts of
//! the headings, their anchors, and the links with their lines.

use vstd::prelude::*;
use vstd::slice::slice_subrange;
use vstd::string::StringSliceAdditionalSpecFns;
use vstd::utf8::encode_utf8;

use crate::record::Record;
use crate::record::RecordView;
use crate::slug::anchors;
use crate::slug::heading_anchors;
use crate::slug::GithubId;
use crate::text::texts;

verus! {

/// One step of a Markdown document, as far as this crate looks at it.
#[derive(Debug)]
pub enum MdEvent {
    /// A heading begins.
    HeadingStart,
    /// A heading ends.
    HeadingEnd,
    /// Plain text.
    Text(String),
    /// An inline code span, without its backticks.
    Code(String),
    /// A link begins: its destination, and the byte offset at which the
    /// whole link ends in the source.
    LinkStart(String, usize),
    /// Anything else.
    Other,
}

/// What an [`MdEvent`] holds.
pub ghost enum MdEventView {
    HeadingStart,
    HeadingEnd,
    Text(Seq<char>),
    Code(Seq<char>),
    LinkStart(Seq<char>, usize),
    Other,
}

impl View for MdEvent {
    type V = MdEventView;

    open spec fn view(&self) -> MdEventView {
        match self {
            MdEvent::HeadingStart => MdEventView::HeadingStart,
            MdEvent::HeadingEnd => MdEventView::HeadingEnd,
            MdEvent::Text(text) => MdEventView::Text(text@),
            MdEvent::Code(text) => MdEventView::Code(text@),
            MdEvent::LinkStart(url, end) => MdEventView::LinkStart(url@, *end),
            MdEvent::Other => MdEventView::Other,
        }
    }
}

/// What a list of events holds.
pub open spec fn event_views(events: Seq<MdEvent>) -> Seq<MdEventView> {
    Seq::new(events.len(), |i: int| events[i]@)
}

/// The events that `pulldown_cmark::Parser::new` finds in `text`, each with
/// the end of its source range, as the parser's `into_offset_iter` gives
/// them.
pub uninterp spec fn markdown_parsed(text: Seq<char>) -> Seq<MdEventView>;

/// Parses `text` with `pulldown_cmark::Parser::new` and walks the events of
/// `into_offset_iter`. The start and the end of a heading, text, inline code
/// and the start of a link keep what they hold; every other event becomes
/// `Other`.
#[verifier::external_body]
pub(crate) fn markdown_events(text: &str) -> (events: Vec<MdEvent>)
    ensures
        event_views(events@) == markdown_parsed(text@),
{
    pulldown_cmark::Parser::new(text).into_offset_iter().map(
        |(event, range)|
            match event {
                pulldown_cmark::Event::Start(pulldown_cmark::Tag::Heading(_)) => MdEvent::HeadingStart,
                pulldown_cmark::Event::End(pulldown_cmark::Tag::Heading(_)) => MdEvent::HeadingEnd,
                pulldown_cmark::Event::Text(text) => MdEvent::Text(text.to_string()),
                pulldown_cmark::Event::Code(text) => MdEvent::Code(text.to_string()),
                pulldown_cmark::Event::Start(pulldown_cmark::Tag::Link(_, url, _)) => MdEvent::LinkStart(url.to_string(), range.end),
                _ => MdEvent::Other,
            },
    ).collect()
}

// ---------------------------------------------------------------------------
// Headings
// ---------------------------------------------------------------------------

/// Where the walk over the events stands: whether it is inside a heading,
/// the text gathered for the heading at hand, and the headings that are
/// complete.
pub ghost struct HeadingScan {
    pub in_heading: bool,
    pub gathered: Seq<char>,
    pub complete: Seq<Seq<char>>,
}

/// One event further: text and inline code count inside a heading only,
/// inline code with a backtick on either side, and the end of a heading
/// completes what was gathered.
pub open spec fn scan_step(scan: HeadingScan, event: MdEventView) -> HeadingScan {
    match event {
        MdEventView::HeadingStart => HeadingScan { in_heading: true, ..scan },
        MdEventView::Text(text) => if scan.in_heading {
            HeadingScan { gathered: scan.gathered + text, ..scan }
        } else {
            scan
        },
        MdEventView::Code(text) => if scan.in_heading {
            HeadingScan { gathered: scan.gathered + seq!['`'] + text + seq!['`'], ..scan }
        } else {
            scan
        },
        MdEventView::HeadingEnd => HeadingScan {
            in_heading: false,
            gathered: Seq::empty(),
            complete: scan.complete.push(scan.gathered),
        },
        _ => scan,
    }
}

/// The walk over all of `events`.
pub open spec fn scanned(events: Seq<MdEventView>) -> HeadingScan
    decreases events.len(),
{
    if events.len() == 0 {
        HeadingScan { in_heading: false, gathered: Seq::empty(), complete: Seq::empty() }
    } else {
        scan_step(scanned(events.drop_last()), events.last())
    }
}

/// The texts of the headings among `events`, one for each heading that
/// ends.
pub open spec fn heading_texts(events: Seq<MdEventView>) -> Seq<Seq<char>> {
    scanned(events).complete
}

/// The texts of the headings among `events`.
pub fn headings(events: &Vec<MdEvent>) -> (found: Vec<String>)
    ensures
        texts(found@) == heading_texts(event_views(events@)),
{
    let ghost all = event_views(events@);
    let mut is_header = false;
    let mut header_acc = String::new();
    let mut found: Vec<String> = Vec::new();
    let mut i: usize = 0;
    assert(texts(found@) =~= scanned(all.take(0)).complete);
    while i < events.len()
        invariant
            i <= events.len(),
            all == event_views(events@),
            scanned(all.take(i as int)) == (HeadingScan {
                in_heading: is_header,
                gathered: header_acc@,
                complete: texts(found@),
            }),
        decreases events.len() - i,
    {
        proof {
            assert(all.take(i + 1).drop_last() =~= all.take(i as int));
            assert(all.take(i + 1).last() == events@[i as int]@);
        }
        match &events[i] {
            MdEvent::HeadingStart => {
                is_header = true;
            },
            MdEvent::Text(text) => {
                if is_header {
                    header_acc.append(text.as_str());
                }
            },
            MdEvent::Code(text) => {
                if is_header {
                    let ghost before = header_acc@;
                    header_acc.push('`');
                    header_acc.append(text.as_str());
                    header_acc.push('`');
                    assert(header_acc@ =~= before + seq!['`'] + text@ + seq!['`']);
                }
            },
            MdEvent::HeadingEnd => {
                is_header = false;
                let ghost before = texts(found@);
                let ghost text = header_acc@;
                found.push(header_acc);
                header_acc = String::new();
                assert(texts(found@) =~= before.push(text));
            },
            _ => {},
        }
        i += 1;
    }
    assert(all.take(events.len() as int) =~= all);
    found
}

/// The anchors that the headings of a Markdown document give.
pub open spec fn markdown_anchors(text: Seq<char>) -> Seq<Seq<char>> {
    anchors(heading_texts(markdown_parsed(text)))
}

/// The anchors of the headings of the Markdown document `text`, heading by
/// heading.
pub fn markdown_ids(text: &str, id_transform: &GithubId) -> (ids: Vec<String>)
    ensures
        texts(ids@) == markdown_anchors(text@),
{
    let events = markdown_events(text);
    let found = headings(&events);
    heading_anchors(&found, id_transform)
}

// ---------------------------------------------------------------------------
// Links and their lines
// ---------------------------------------------------------------------------

/// How often `needle` occurs in `bytes`.
pub open spec fn count_byte(bytes: Seq<u8>, needle: u8) -> nat
    decreases bytes.len(),
{
    if bytes.len() == 0 {
        0
    } else {
        count_byte(bytes.drop_last(), needle) + if bytes.last() == needle {
            1nat
        } else {
            0nat
        }
    }
}

/// `bytecount::count` counts the occurrences of a byte in a slice.
pub assume_specification[ bytecount::count ](haystack: &[u8], needle: u8) -> (n: usize)
    ensures
        n == count_byte(haystack@, needle),
;

/// A byte occurs in a sequence at most as often as the sequence is long.
pub proof fn lemma_count_bounded(bytes: Seq<u8>, needle: u8)
    ensures
        count_byte(bytes, needle) <= bytes.len(),
    decreases bytes.len(),
{
    if bytes.len() > 0 {
        lemma_count_bounded(bytes.drop_last(), needle);
    }
}

/// Counting over two stretches that follow each other adds up.
pub proof fn lemma_count_split(bytes: Seq<u8>, needle: u8, a: int, b: int)
    requires
        0 <= a <= b <= bytes.len(),
    ensures
        count_byte(bytes.take(b), needle) == count_byte(bytes.take(a), needle) + count_byte(
            bytes.subrange(a, b),
            needle,
        ),
    decreases b - a,
{
    if a == b {
        assert(bytes.subrange(a, b) =~= Seq::empty());
    } else {
        lemma_count_split(bytes, needle, a, b - 1);
        assert(bytes.take(b).drop_last() =~= bytes.take(b - 1));
        assert(bytes.subrange(a, b).drop_last() =~= bytes.subrange(a, b - 1));
        assert(bytes.take(b).last() == bytes.subrange(a, b).last());
    }
}

/// The links among `events`: destination and end offset, in order.
pub open spec fn link_starts(events: Seq<MdEventView>) -> Seq<(Seq<char>, usize)>
    decreases events.len(),
{
    if events.len() == 0 {
        Seq::empty()
    } else {
        match events.last() {
            MdEventView::LinkStart(url, end) => link_starts(events.drop_last()).push((url, end)),
            _ => link_starts(events.drop_last()),
        }
    }
}

/// What a list of links with their offsets or lines holds.
pub open spec fn numbered_texts(links: Seq<(usize, String)>) -> Seq<(usize, Seq<char>)> {
    Seq::new(links.len(), |i: int| (links[i].0, links[i].1@))
}

/// What a list of links with their end offsets holds.
pub open spec fn span_texts(links: Seq<(String, usize)>) -> Seq<(Seq<char>, usize)> {
    Seq::new(links.len(), |i: int| (links[i].0@, links[i].1))
}

/// The links among `events` with their end offsets.
pub fn links_of(events: &Vec<MdEvent>) -> (links: Vec<(String, usize)>)
    ensures
        span_texts(links@) == link_starts(event_views(events@)),
{
    let ghost all = event_views(events@);
    let mut links: Vec<(String, usize)> = Vec::new();
    let mut i: usize = 0;
    assert(span_texts(links@) =~= link_starts(all.take(0)));
    while i < events.len()
        invariant
            i <= events.len(),
            all == event_views(events@),
            span_texts(links@) == link_starts(all.take(i as int)),
        decreases events.len() - i,
    {
        proof {
            assert(all.take(i + 1).drop_last() =~= all.take(i as int));
            assert(all.take(i + 1).last() == events@[i as int]@);
        }
        if let MdEvent::LinkStart(url, end) = &events[i] {
            let ghost before = span_texts(links@);
            links.push((url.clone(), *end));
            assert(span_texts(links@) =~= before.push((url@, *end)));
        }
        i += 1;
    }
    assert(all.take(events.len() as int) =~= all);
    links
}

/// The end offsets never fall back and stay within `len` bytes.
pub open spec fn ends_in_order(links: Seq<(Seq<char>, usize)>, len: nat) -> bool {
    &&& forall|i: int| 0 <= i < links.len() ==> (#[trigger] links[i]).1 <= len
    &&& forall|i: int, j: int|
        0 <= i <= j < links.len() ==> (#[trigger] links[i]).1 <= (#[trigger] links[j]).1
}

/// Whether the end offsets never fall back and stay within `len` bytes.
pub fn check_ends(links: &Vec<(String, usize)>, len: usize) -> (ok: bool)
    ensures
        ok == ends_in_order(span_texts(links@), len as nat),
{
    let ghost spans = span_texts(links@);
    let mut previous: usize = 0;
    let mut i: usize = 0;
    while i < links.len()
        invariant
            i <= links.len(),
            spans == span_texts(links@),
            previous <= len,
            forall|k: int| 0 <= k < i ==> (#[trigger] spans[k]).1 <= previous,
            i > 0 ==> spans[i - 1].1 == previous,
            i == 0 ==> previous == 0,
            ends_in_order(spans.take(i as int), len as nat),
        decreases links.len() - i,
    {
        let end = links[i].1;
        assert(spans[i as int].1 == end);
        if end < previous || end > len {
            proof {
                if end > len {
                    assert(!ends_in_order(spans, len as nat));
                } else {
                    assert(i > 0);
                    assert(spans[i - 1].1 > spans[i as int].1);
                    assert(!ends_in_order(spans, len as nat));
                }
            }
            return false;
        }
        proof {
            let next = spans.take(i + 1);
            assert forall|a: int, b: int| 0 <= a <= b < next.len() implies (#[trigger] next[a]).1
                <= (#[trigger] next[b]).1 by {
                assert(next[a] == spans[a] && next[b] == spans[b]);
            }
            assert forall|a: int| 0 <= a < next.len() implies (#[trigger] next[a]).1 <= len by {
                assert(next[a] == spans[a]);
            }
        }
        previous = end;
        i += 1;
    }
    assert(spans.take(links.len() as int) =~= spans);
    true
}

/// The line of each link: one more than the line feeds that the source has
/// up to the end of the link.
pub open spec fn lines_of(bytes: Seq<u8>, links: Seq<(Seq<char>, usize)>) -> Seq<
    (usize, Seq<char>),
> {
    Seq::new(
        links.len(),
        |i: int| ((1 + count_byte(bytes.take(links[i].1 as int), 10)) as usize, links[i].0),
    )
}

/// Numbers the links of a document by their lines. Between one link and the
/// next, the line feeds of the stretch between their ends are counted.
pub fn link_lines(bytes: &[u8], links: Vec<(String, usize)>) -> (found: Vec<(usize, String)>)
    requires
        bytes@.len() < usize::MAX,
        ends_in_order(span_texts(links@), bytes@.len()),
    ensures
        numbered_texts(found@) == lines_of(bytes@, span_texts(links@)),
{
    let ghost spans = span_texts(links@);
    let ghost expected = lines_of(bytes@, spans);
    let total = links.len();
    let mut rest = links;
    let mut found: Vec<(usize, String)> = Vec::new();
    let mut linenum: usize = 1;
    let mut oldoffs: usize = 0;
    let mut i: usize = 0;
    assert(bytes@.take(0) =~= Seq::empty());
    assert(numbered_texts(found@) =~= expected.take(0));
    while rest.len() > 0
        invariant
            bytes@.len() < usize::MAX,
            ends_in_order(spans, bytes@.len()),
            expected == lines_of(bytes@, spans),
            spans.len() == total,
            i + rest.len() == total,
            span_texts(rest@) == spans.skip(i as int),
            oldoffs <= bytes@.len(),
            i > 0 ==> spans[i - 1].1 == oldoffs,
            i == 0 ==> oldoffs == 0,
            linenum == 1 + count_byte(bytes@.take(oldoffs as int), 10),
            numbered_texts(found@) == expected.take(i as int),
        decreases rest.len(),
    {
        let ghost waiting = rest@;
        let (url, offset) = rest.remove(0);
        proof {
            assert(span_texts(waiting)[0] == spans.skip(i as int)[0]);
            assert(spans[i as int] == (url@, offset));
            assert forall|k: int| 0 <= k < rest@.len() implies span_texts(rest@)[k] == spans.skip(
                i + 1,
            )[k] by {
                assert(rest@[k] == waiting[k + 1]);
                assert(span_texts(waiting)[k + 1] == spans.skip(i as int)[k + 1]);
            }
            assert(span_texts(rest@) =~= spans.skip(i + 1));
            assert(spans[i as int].1 <= bytes@.len());
            if i > 0 {
                assert(spans[i - 1].1 <= spans[i as int].1);
            }
            lemma_count_split(bytes@, 10, oldoffs as int, offset as int);
            lemma_count_bounded(bytes@.take(offset as int), 10);
        }
        linenum = linenum + bytecount::count(slice_subrange(bytes, oldoffs, offset), 10u8);
        oldoffs = offset;
        let ghost before = numbered_texts(found@);
        found.push((linenum, url));
        proof {
            assert(numbered_texts(found@) =~= before.push((linenum, url@)));
            assert(numbered_texts(found@) =~= expected.take(i + 1));
        }
        i += 1;
    }
    assert(expected.take(total as int) =~= expected);
    found
}

/// The links of the Markdown document in their order, each with its line.
pub open spec fn markdown_links(text: Seq<char>) -> Option<Seq<(usize, Seq<char>)>> {
    let bytes = encode_utf8(text);
    if bytes.len() < usize::MAX && ends_in_order(link_starts(markdown_parsed(text)), bytes.len()) {
        Some(lines_of(bytes, link_starts(markdown_parsed(text))))
    } else {
        None
    }
}

/// A cursor over the links of a Markdown document.
#[derive(Debug)]
pub struct MdLinkParser {
    links: Vec<(usize, String)>,
}

impl View for MdLinkParser {
    type V = Seq<(usize, Seq<char>)>;

    closed spec fn view(&self) -> Seq<(usize, Seq<char>)> {
        numbered_texts(self.links@)
    }
}

impl MdLinkParser {
    /// A cursor before the first link of `buffer`. There is none where the
    /// links that the parser reports do not end one after the other within
    /// the buffer.
    pub fn new(buffer: &str) -> (parser: Option<MdLinkParser>)
        ensures
            match parser {
                Some(p) => markdown_links(buffer@) == Some(p@),
                None => markdown_links(buffer@) is None,
            },
    {
        let bytes = buffer.as_bytes();
        let events = markdown_events(buffer);
        let spans = links_of(&events);
        if bytes.len() < usize::MAX && check_ends(&spans, bytes.len()) {
            Some(MdLinkParser { links: link_lines(bytes, spans) })
        } else {
            None
        }
    }

    /// The next link with its line, if one is left.
    pub fn next(&mut self) -> (link: Option<(usize, String)>)
        ensures
            match link {
                Some(pair) => old(self)@.len() > 0 && (pair.0, pair.1@) == old(self)@[0]
                    && final(self)@ == old(self)@.skip(1),
                None => old(self)@.len() == 0 && final(self)@ == old(self)@,
            },
    {
        if self.links.len() > 0 {
            let pair = self.links.remove(0);
            assert(numbered_texts(self.links@) =~= numbered_texts(old(self).links@).skip(1));
            Some(pair)
        } else {
            None
        }
    }
}

/// The records of the links of a document, given its path and its text.
pub open spec fn records_in(path: Seq<char>, links: Seq<(usize, Seq<char>)>) -> Seq<RecordView> {
    Seq::new(
        links.len(),
        |i: int| RecordView { doc_path: path, doc_line: links[i].0, link: links[i].1 },
    )
}

/// What a list of records holds.
pub open spec fn record_views(records: Seq<Record>) -> Seq<RecordView> {
    Seq::new(records.len(), |i: int| records[i]@)
}

/// The records of the links of the Markdown document `buffer`, which was
/// read from `path`.
pub fn md_records(path: &str, buffer: &str) -> (records: Option<Vec<Record>>)
    ensures
        match records {
            Some(list) => markdown_links(buffer@) matches Some(links)
                && record_views(list@) == records_in(path@, links),
            None => markdown_links(buffer@) is None,
        },
{
    match MdLinkParser::new(buffer) {
        None => None,
        Some(parser) => {
            let mut parser = parser;
            let ghost links = parser@;
            let mut list: Vec<Record> = Vec::new();
            let ghost mut done: int = 0;
            assert(record_views(list@) =~= records_in(path@, links).take(0));
            assert(links.skip(0) =~= links);
            loop
                invariant
                    0 <= done <= links.len(),
                    markdown_links(buffer@) == Some(links),
                    parser@ == links.skip(done),
                    record_views(list@) == records_in(path@, links).take(done),
                decreases links.len() - done,
            {
                match parser.next() {
                    Some((line, url)) => {
                        let ghost before = record_views(list@);
                        let record = Record { doc_path: path.to_owned(), doc_line: line, link: url };
                        list.push(record);
                        proof {
                            assert(links.skip(done)[0] == links[done]);
                            assert(links.skip(done).skip(1) =~= links.skip(done + 1));
                            assert(record_views(list@) =~= before.push(record@));
                            assert(record_views(list@) =~= records_in(path@, links).take(done + 1));
                            done = done + 1;
                        }
                    },
                    None => {
                        assert(done == links.len());
                        assert(records_in(path@, links).take(done) =~= records_in(path@, links));
                        return Some(list);
                    },
                }
            }
        },
    }
}

} // verus!

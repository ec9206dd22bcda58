//! One link as it was found: where it stands and how it was written.

use vstd::prelude::*;

use crate::error::MsgError;
use crate::link::local_target;
use crate::link::parse_url;
use crate::link::parted;
use crate::link::url_syntax;
use crate::link::Link;
use crate::link::LinkView;
use crate::link::UrlSyntax;
use crate::link::UrlSyntaxView;
use crate::text::chars_of;
use crate::text::digits_value;
use crate::text::is_digit;
use crate::text::option_text;
use crate::text::parse_number_in;
use crate::text::rfind_char;
use crate::text::string_of_range;

verus! {

/// A link found in a document.
#[derive(Debug)]
pub struct Record {
    /// The path of the document that holds the link.
    pub doc_path: String,
    /// The line of the link, counted from 1.
    pub doc_line: usize,
    /// The link as it is written.
    pub link: String,
}

/// What a [`Record`] holds.
pub ghost struct RecordView {
    pub doc_path: Seq<char>,
    pub doc_line: usize,
    pub link: Seq<char>,
}

impl View for Record {
    type V = RecordView;

    open spec fn view(&self) -> RecordView {
        RecordView { doc_path: self.doc_path@, doc_line: self.doc_line, link: self.link@ }
    }
}

/// The layout of a report line, `path:line: TAG link`. The colon before the
/// line number stands at `a`, the colon behind it at `b`, and the blank
/// before the link at `c`. The path runs up to `a` and holds no line feed;
/// the line number is written in digits; the tag follows the blank behind
/// `b`, and neither the tag nor the link holds a blank.
pub open spec fn record_shape(line: Seq<char>, a: int, b: int, c: int) -> bool {
    &&& 0 <= a && a + 1 < b && b + 1 < c < line.len()
    &&& line[a] == ':' && line[b] == ':' && line[b + 1] == ' ' && line[c] == ' '
    &&& forall|k: int| 0 <= k < a ==> line[k] != '\n'
    &&& forall|k: int| a < k < b ==> is_digit(line[k])
    &&& forall|k: int| b + 1 < k < c ==> line[k] != ' '
    &&& forall|k: int| c < k < line.len() ==> line[k] != ' '
}

/// A line has the layout of a report line in one way at most.
pub proof fn lemma_record_shape_unique(
    line: Seq<char>,
    a: int,
    b: int,
    c: int,
    a2: int,
    b2: int,
    c2: int,
)
    requires
        record_shape(line, a, b, c),
        record_shape(line, a2, b2, c2),
    ensures
        a == a2,
        b == b2,
        c == c2,
{
    assert(c == c2) by {
        if c < c2 {
            assert(line[c2] == ' ');
        }
        if c2 < c {
            assert(line[c] == ' ');
        }
    }
    assert(b == b2) by {
        if b < b2 {
            assert(line[b2 + 1] == ' ');
        }
        if b2 < b {
            assert(line[b + 1] == ' ');
        }
    }
    assert(a == a2) by {
        if a < a2 {
            assert(!is_digit(line[a2]));
        }
        if a2 < a {
            assert(!is_digit(line[a]));
        }
    }
}

/// The record that a report line with the layout `a`, `b`, `c` holds.
pub open spec fn record_at(line: Seq<char>, a: int, b: int, c: int) -> RecordView {
    RecordView {
        doc_path: line.take(a),
        doc_line: digits_value(line.subrange(a + 1, b)) as usize,
        link: line.skip(c + 1),
    }
}

/// Whether `line` is a report line whose line number can be held.
pub open spec fn is_record(line: Seq<char>) -> bool {
    exists|a: int, b: int, c: int|
        record_shape(line, a, b, c) && digits_value(line.subrange(a + 1, b)) <= usize::MAX
}

impl Record {
    /// Reads a report line, `path:line: TAG link`. The tag is passed over.
    /// Anything else, and a line number too large to hold, is refused with
    /// the message `invalid record format`.
    pub fn from_str(line: &str) -> (r: Result<Record, &'static str>)
        ensures
            match r {
                Ok(record) => exists|a: int, b: int, c: int|
                    record_shape(line@, a, b, c) && digits_value(line@.subrange(a + 1, b))
                        <= usize::MAX && record@ == record_at(line@, a, b, c),
                Err(why) => !is_record(line@) && why@ == "invalid record format"@,
            },
    {
        let chars = chars_of(line);
        let ghost s = chars@;
        let len = chars.len();
        let c = match rfind_char(&chars, ' ', len) {
            Some(c) => c,
            None => {
                assert forall|a: int, b: int, c: int| !record_shape(s, a, b, c) by {}
                return Err("invalid record format");
            },
        };
        let blank = match rfind_char(&chars, ' ', c) {
            Some(blank) => blank,
            None => {
                assert forall|a: int, b: int, c2: int| !record_shape(s, a, b, c2) by {
                    if record_shape(s, a, b, c2) {
                        assert(c2 == c) by {
                            if c2 < c {
                                assert(s[c as int] == ' ');
                            }
                        }
                        assert(s[b + 1] == ' ');
                    }
                }
                return Err("invalid record format");
            },
        };
        if blank == 0 || chars[blank - 1] != ':' {
            assert forall|a: int, b: int, c2: int| !record_shape(s, a, b, c2) by {
                if record_shape(s, a, b, c2) {
                    assert(c2 == c) by {
                        if c2 < c {
                            assert(s[c as int] == ' ');
                        }
                    }
                    assert(b + 1 == blank) by {
                        if b + 1 < blank {
                            assert(s[blank as int] == ' ');
                        }
                        if blank < b + 1 {
                            assert(s[b + 1] == ' ');
                        }
                    }
                }
            }
            return Err("invalid record format");
        }
        let b = blank - 1;
        let a = match rfind_char(&chars, ':', b) {
            Some(a) => a,
            None => {
                assert forall|a: int, b2: int, c2: int| !record_shape(s, a, b2, c2) by {
                    if record_shape(s, a, b2, c2) {
                        lemma_shape_ends(s, a, b2, c2, blank as int, c as int);
                        assert(s[a] == ':');
                    }
                }
                return Err("invalid record format");
            },
        };
        let number = parse_number_in(&chars, a + 1, b, usize::MAX);
        let clean = no_line_feed(&chars, a);
        match number {
            Some(doc_line) => {
                if clean {
                    let record = Record {
                        doc_path: string_of_range(&chars, 0, a),
                        doc_line,
                        link: string_of_range(&chars, c + 1, len),
                    };
                    proof {
                        assert(s.subrange(0, a as int) == s.take(a as int));
                        assert(s.subrange(c + 1, len as int) == s.skip(c + 1));
                        assert(record_shape(s, a as int, b as int, c as int)) by {
                            assert forall|k: int| a < k < b implies is_digit(s[k]) by {
                                assert(s.subrange(a + 1, b as int)[k - a - 1] == s[k]);
                            }
                        }
                        assert(record@ == record_at(s, a as int, b as int, c as int));
                    }
                    Ok(record)
                } else {
                    assert forall|a2: int, b2: int, c2: int| !record_shape(s, a2, b2, c2) by {
                        if record_shape(s, a2, b2, c2) {
                            lemma_shape_ends(s, a2, b2, c2, blank as int, c as int);
                            lemma_shape_start(s, a2, b2, c2, a as int);
                        }
                    }
                    Err("invalid record format")
                }
            },
            None => {
                assert forall|a2: int, b2: int, c2: int|
                    !(record_shape(s, a2, b2, c2) && digits_value(s.subrange(a2 + 1, b2))
                        <= usize::MAX) by {
                    if record_shape(s, a2, b2, c2) {
                        lemma_shape_ends(s, a2, b2, c2, blank as int, c as int);
                        lemma_shape_start(s, a2, b2, c2, a as int);
                        let digits = s.subrange(a + 1, b as int);
                        assert forall|k: int| 0 <= k < digits.len() implies is_digit(
                            #[trigger] digits[k],
                        ) by {
                            assert(digits[k] == s[a + 1 + k]);
                        }
                    }
                }
                Err("invalid record format")
            },
        }
    }
}

/// Whether `v[..end]` is free of line feeds.
fn no_line_feed(v: &Vec<char>, end: usize) -> (clean: bool)
    requires
        end <= v.len(),
    ensures
        clean == forall|k: int| 0 <= k < end ==> v@[k] != '\n',
{
    let mut i: usize = 0;
    while i < end
        invariant
            i <= end <= v.len(),
            forall|k: int| 0 <= k < i ==> v@[k] != '\n',
        decreases end - i,
    {
        if v[i] == '\n' {
            return false;
        }
        i += 1;
    }
    true
}

/// Where a line has the layout of a report line, the blank before the link
/// is its last blank, and the blank behind the line number the one before.
proof fn lemma_shape_ends(s: Seq<char>, a: int, b: int, c: int, blank: int, last: int)
    requires
        record_shape(s, a, b, c),
        0 <= blank < last < s.len(),
        s[last] == ' ',
        s[blank] == ' ',
        forall|k: int| last < k < s.len() ==> s[k] != ' ',
        forall|k: int| blank < k < last ==> s[k] != ' ',
    ensures
        c == last,
        b + 1 == blank,
{
    if c < last {
        assert(s[last] == ' ');
    }
    if last < c {
        assert(s[c] == ' ');
    }
    if b + 1 < blank {
        assert(s[blank] == ' ');
    }
    if blank < b + 1 {
        assert(s[b + 1] == ' ');
    }
}

/// Where a line has the layout of a report line, the colon before the line
/// number is the last colon before the one behind it.
proof fn lemma_shape_start(s: Seq<char>, a: int, b: int, c: int, colon: int)
    requires
        record_shape(s, a, b, c),
        0 <= colon < b,
        s[colon] == ':',
        forall|k: int| colon < k < b ==> s[k] != ':',
    ensures
        a == colon,
{
    if a < colon {
        assert(!is_digit(s[colon]));
    }
    if colon < a {
        assert(s[a] == ':');
    }
}

/// The target and the fragment of a link as it is written, for a link
/// found in the document `origin`: an absolute URL stands for itself, a
/// reference that needs a base is a local path, and anything else is
/// refused with the reason.
pub open spec fn link_of(link: Seq<char>, origin: Seq<char>, base_path: Option<Seq<char>>) -> Result<
    (LinkView, Option<Seq<char>>),
    Seq<char>,
> {
    match url_syntax(link) {
        UrlSyntaxView::Absolute(href) => Ok((LinkView::Url(parted(href).0), parted(href).1)),
        UrlSyntaxView::Relative => Ok(
            (LinkView::Path(local_target(parted(link).0, origin, base_path)), parted(link).1),
        ),
        UrlSyntaxView::Invalid(why) => Err(why),
    }
}

impl Record {
    /// Whether the record's link is a local reference, so that its target
    /// depends on where the document lies.
    pub fn is_local(&self) -> (local: bool)
        ensures
            local == (url_syntax(self@.link) is Relative),
    {
        match parse_url(self.link.as_str()) {
            UrlSyntax::Relative => true,
            _ => false,
        }
    }

    /// The target and the fragment of the record's link. `origin` is the
    /// absolute path of the document that holds the link, `base_path` the
    /// directory from which absolute local references count.
    pub fn to_link(&self, origin: &str, base_path: &Option<String>) -> (r: Result<
        (Link, Option<String>),
        MsgError,
    >)
        ensures
            match r {
                Ok(pair) => link_of(self@.link, origin@, option_text(*base_path)) == Ok::<
                    (LinkView, Option<Seq<char>>),
                    Seq<char>,
                >((pair.0@, option_text(pair.1))),
                Err(e) => link_of(self@.link, origin@, option_text(*base_path)) == Err::<
                    (LinkView, Option<Seq<char>>),
                    Seq<char>,
                >(e@),
            },
    {
        match parse_url(self.link.as_str()) {
            UrlSyntax::Absolute(href) => Ok(Link::from_url(href.as_str())),
            UrlSyntax::Relative => Link::path(self.link.as_str(), origin, base_path),
            UrlSyntax::Invalid(why) => Err(MsgError(why)),
        }
    }
}


} // verus!

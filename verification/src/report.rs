//! What is said about a checked link: the result line, and the lines that
//! explain a failure.

use std::sync::Arc;

use vstd::prelude::*;

use crate::error::rendered;
use crate::error::Error;
use crate::error::ErrorView;
use crate::error::Tag;
use crate::record::Record;
use crate::record::RecordView;
use crate::text::decimal;
use crate::text::decimal_digits;
use crate::text::join2;
use crate::text::join3;
use crate::text::texts;

verus! {

/// What checking a link gave, as the rules see it.
pub open spec fn checked(res: Option<Result<(), Arc<Error>>>) -> Option<Result<(), ErrorView>> {
    match res {
        None => None,
        Some(Ok(_)) => Some(Ok(())),
        Some(Err(e)) => Some(Err(e@)),
    }
}

/// The tag of a result: none where nothing was checked, success where
/// nothing is wrong, else the tag of the error.
pub open spec fn tag_of(res: Option<Result<(), ErrorView>>) -> Option<Tag> {
    match res {
        None => None,
        Some(Ok(_)) => Some(Tag::Success),
        Some(Err(e)) => Some(e.tag),
    }
}

/// The tag of a result.
pub fn result_tag(res: &Option<Result<(), Arc<Error>>>) -> (tag: Option<Tag>)
    ensures
        tag == tag_of(checked(*res)),
{
    match res {
        None => None,
        Some(Ok(_)) => Some(Tag::Success),
        Some(Err(e)) => Some(e.tag),
    }
}

/// Whether `tag` is one of the tags that are not to be reported. A result
/// without tag is never muted.
pub fn is_muted(tag: &Option<Tag>, silence: &[Tag]) -> (muted: bool)
    ensures
        muted == (*tag matches Some(t) && silence@.contains(t)),
{
    match tag {
        None => false,
        Some(t) => {
            let mut i: usize = 0;
            while i < silence.len()
                invariant
                    i <= silence.len(),
                    *tag == Some(*t),
                    forall|k: int| 0 <= k < i ==> silence@[k] != *t,
                decreases silence.len() - i,
            {
                if silence[i] == *t {
                    assert(silence@[i as int] == *t);
                    return true;
                }
                i += 1;
            }
            false
        },
    }
}

/// The text of a tag in a result line; nothing where there is no tag.
pub open spec fn tag_text(tag: Option<Tag>) -> Seq<char> {
    match tag {
        Some(t) => t.text(),
        None => Seq::empty(),
    }
}

/// The result line of a record: `path:line: TAG link`, or the link alone.
pub open spec fn line_text(record: RecordView, tag: Option<Tag>, link_only: bool) -> Seq<char> {
    if link_only {
        record.link
    } else {
        record.doc_path + ":"@ + decimal_digits(record.doc_line as nat) + ": "@ + tag_text(tag)
            + " "@ + record.link
    }
}

/// The result line of a record.
pub fn result_line(record: &Record, tag: &Option<Tag>, link_only: bool) -> (line: String)
    ensures
        line@ == line_text(record@, *tag, link_only),
{
    if link_only {
        record.link.clone()
    } else {
        let number = decimal(record.doc_line);
        let name = match tag {
            Some(t) => t.to_string(),
            None => {
                assert(""@ =~= Seq::<char>::empty()) by {
                    reveal_strlit("");
                }
                "".to_owned()
            },
        };
        let place = join3(record.doc_path.as_str(), ":", number.as_str());
        let tagged = join3(place.as_str(), ": ", name.as_str());
        join3(tagged.as_str(), " ", record.link.as_str())
    }
}

/// What is to be said about one record.
#[derive(Debug)]
pub struct Report {
    /// The lines that explain a failure, to be given as warnings first.
    pub warnings: Vec<String>,
    /// The result line.
    pub line: String,
}

/// What a [`Report`] holds.
pub ghost struct ReportView {
    pub warnings: Seq<Seq<char>>,
    pub line: Seq<char>,
}

impl View for Report {
    type V = ReportView;

    open spec fn view(&self) -> ReportView {
        ReportView { warnings: texts(self.warnings@), line: self.line@ }
    }
}

/// What is to be said about a record with the result `res`: nothing where
/// its tag is muted; else the result line, and before it the lines of the
/// error where there is one.
pub open spec fn report_of(
    record: RecordView,
    res: Option<Result<(), ErrorView>>,
    silence: Seq<Tag>,
    link_only: bool,
) -> Option<ReportView> {
    if tag_of(res) matches Some(t) && silence.contains(t) {
        None
    } else {
        Some(
            ReportView {
                warnings: match res {
                    Some(Err(e)) => rendered(e),
                    _ => Seq::empty(),
                },
                line: line_text(record, tag_of(res), link_only),
            },
        )
    }
}

/// The lines that report the error `err`.
pub fn error_lines(err: &Error) -> (lines: Vec<String>)
    ensures
        texts(lines@) == rendered(err@),
{
    let ghost all = rendered(err@);
    let mut it = err.iter();
    let mut lines: Vec<String> = Vec::new();
    assert(texts(lines@) =~= all.take(0));
    loop
        invariant
            it.error() == err@,
            all == rendered(err@),
            it.position() <= all.len(),
            texts(lines@) == all.take(it.position() as int),
        decreases all.len() - it.position(),
    {
        let ghost before = texts(lines@);
        let ghost at = it.position();
        match it.next() {
            Some(line) => {
                lines.push(line);
                assert(texts(lines@) =~= before.push(line@));
                assert(texts(lines@) =~= all.take(at as int + 1));
            },
            None => {
                assert(all.take(all.len() as int) =~= all);
                return lines;
            },
        }
    }
}

/// What is to be said about `record` after its link was checked with the
/// result `res`: nothing where the tag of the result is one of `silence`.
pub fn print_result(
    record: &Record,
    res: &Option<Result<(), Arc<Error>>>,
    silence: &[Tag],
    link_only: bool,
) -> (report: Option<Report>)
    ensures
        match report {
            Some(r) => report_of(record@, checked(*res), silence@, link_only) == Some(r@),
            None => report_of(record@, checked(*res), silence@, link_only) is None,
        },
{
    let tag = result_tag(res);
    if is_muted(&tag, silence) {
        None
    } else {
        let warnings = match res {
            Some(Err(err)) => error_lines(err),
            _ => {
                let none: Vec<String> = Vec::new();
                assert(texts(none@) =~= Seq::<Seq<char>>::empty());
                none
            },
        };
        Some(Report { warnings, line: result_line(record, &tag, link_only) })
    }
}

} // verus!

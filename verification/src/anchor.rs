//! Anchors formed by normalization: letters and numbers stay, everything
//! else becomes a hyphen.

use vstd::prelude::*;

use crate::markdown::event_views;
use crate::markdown::markdown_events;
use crate::markdown::markdown_parsed;
use crate::markdown::MdEvent;
use crate::markdown::MdEventView;
use crate::text::chars_of;
use crate::text::lower_form;
use crate::text::same_text;
use crate::text::string_of_range;
use crate::text::texts;
use crate::text::to_lower;

verus! {

/// `text` in Unicode Normalization Form KC, as the `unicode_normalization`
/// crate computes it.
pub uninterp spec fn normalized(text: Seq<char>) -> Seq<char>;

/// Whether `c` is of one of the Unicode categories of letters, as the
/// `unicode_categories` crate knows them.
pub uninterp spec fn is_letter_char(c: char) -> bool;

/// Whether `c` is of one of the Unicode categories of numbers, as the
/// `unicode_categories` crate knows them.
pub uninterp spec fn is_number_char(c: char) -> bool;

/// Collects what `unicode_normalization::UnicodeNormalization::nfkc` gives
/// for `text`.
#[verifier::external_body]
fn nfkc(text: &str) -> (normal: String)
    ensures
        normal@ == normalized(text@),
{
    unicode_normalization::UnicodeNormalization::nfkc(text).collect()
}

/// Asks `unicode_categories::UnicodeCategories::is_letter`.
#[verifier::external_body]
fn is_letter(c: char) -> (letter: bool)
    ensures
        letter == is_letter_char(c),
{
    unicode_categories::UnicodeCategories::is_letter(c)
}

/// Asks `unicode_categories::UnicodeCategories::is_number`.
#[verifier::external_body]
fn is_number(c: char) -> (number: bool)
    ensures
        number == is_number_char(c),
{
    unicode_categories::UnicodeCategories::is_number(c)
}

/// A letter or a number stays what it is; anything else becomes a hyphen.
pub open spec fn hyphen_unless_word(c: char) -> char {
    if is_letter_char(c) || is_number_char(c) {
        c
    } else {
        '-'
    }
}

/// `s` with everything but letters and numbers turned into hyphens.
pub open spec fn hyphened(s: Seq<char>) -> Seq<char> {
    Seq::new(s.len(), |i: int| hyphen_unless_word(s[i]))
}

/// `s` without its leading hyphens and with one hyphen for each further run
/// of hyphens: a hyphen stays where a character other than a hyphen stands
/// before it.
pub open spec fn squeezed(s: Seq<char>) -> Seq<char>
    decreases s.len(),
{
    if s.len() == 0 {
        Seq::empty()
    } else if s.last() != '-' || (s.len() >= 2 && s[s.len() - 2] != '-') {
        squeezed(s.drop_last()).push(s.last())
    } else {
        squeezed(s.drop_last())
    }
}

/// `s` without the hyphen at its end, if it has one there.
pub open spec fn trimmed(s: Seq<char>) -> Seq<char> {
    if s.len() > 0 && s.last() == '-' {
        s.drop_last()
    } else {
        s
    }
}

/// The anchor of a normalized text: hyphens for everything but letters and
/// numbers, no hyphen at either end and no two in a row, all in lower case.
pub open spec fn anchor_of(normal: Seq<char>) -> Seq<char> {
    lower_form(trimmed(squeezed(hyphened(normal))))
}

/// The anchor of the text of a heading.
pub fn anchor(text: &str) -> (id: String)
    ensures
        id@ == anchor_of(normalized(text@)),
{
    let normal = nfkc(text);
    let chars = chars_of(normal.as_str());
    let ghost mapped = hyphened(chars@);
    let mut out: Vec<char> = Vec::new();
    let mut was_hyphen = true;
    let mut i: usize = 0;
    assert(mapped.take(0) =~= Seq::<char>::empty());
    while i < chars.len()
        invariant
            i <= chars.len(),
            mapped == hyphened(chars@),
            out@ == squeezed(mapped.take(i as int)),
            was_hyphen == (i == 0 || mapped[i - 1] == '-'),
        decreases chars.len() - i,
    {
        let c = if is_letter(chars[i]) || is_number(chars[i]) {
            chars[i]
        } else {
            '-'
        };
        proof {
            let next = mapped.take(i + 1);
            assert(next.drop_last() =~= mapped.take(i as int));
            assert(next.last() == c);
            if i >= 1 {
                assert(next[next.len() - 2] == mapped[i - 1]);
            }
        }
        if c != '-' {
            was_hyphen = false;
            out.push(c);
        } else if !was_hyphen {
            was_hyphen = true;
            out.push(c);
        } else {
            was_hyphen = true;
        }
        i += 1;
    }
    assert(mapped.take(chars.len() as int) =~= mapped);
    let end = if out.len() > 0 && out[out.len() - 1] == '-' {
        out.len() - 1
    } else {
        out.len()
    };
    let kept = string_of_range(&out, 0, end);
    assert(kept@ =~= trimmed(out@));
    to_lower(kept.as_str())
}

/// Where the walk over the events stands: whether the text of a heading is
/// still to come, and the anchors so far.
pub ghost struct TitleScan {
    pub waiting: bool,
    pub found: Seq<Seq<char>>,
}

/// One event further: the first text behind the start of a heading gives
/// the anchor of the heading.
pub open spec fn title_step(scan: TitleScan, event: MdEventView) -> TitleScan {
    match event {
        MdEventView::HeadingStart => TitleScan { waiting: true, ..scan },
        MdEventView::Text(text) => if scan.waiting {
            TitleScan { waiting: false, found: scan.found.push(anchor_of(normalized(text))) }
        } else {
            scan
        },
        _ => scan,
    }
}

/// The walk over all of `events`.
pub open spec fn titles(events: Seq<MdEventView>) -> TitleScan
    decreases events.len(),
{
    if events.len() == 0 {
        TitleScan { waiting: false, found: Seq::empty() }
    } else {
        title_step(titles(events.drop_last()), events.last())
    }
}

/// The anchors of the headings among `events`, each formed from the first
/// text of its heading.
pub fn title_anchors(events: &Vec<MdEvent>) -> (found: Vec<String>)
    ensures
        texts(found@) == titles(event_views(events@)).found,
{
    let ghost all = event_views(events@);
    let mut is_header = false;
    let mut found: Vec<String> = Vec::new();
    let mut i: usize = 0;
    assert(texts(found@) =~= titles(all.take(0)).found);
    while i < events.len()
        invariant
            i <= events.len(),
            all == event_views(events@),
            titles(all.take(i as int)) == (TitleScan {
                waiting: is_header,
                found: texts(found@),
            }),
        decreases events.len() - i,
    {
        proof {
            assert(all.take(i + 1).drop_last() =~= all.take(i as int));
            assert(all.take(i + 1).last() == events@[i as int]@);
        }
        match &events[i] {
            MdEvent::HeadingStart => {
                is_header = true;
            },
            MdEvent::Text(text) => {
                if is_header {
                    is_header = false;
                    let ghost before = texts(found@);
                    let id = anchor(text.as_str());
                    found.push(id);
                    assert(texts(found@) =~= before.push(id@));
                }
            },
            _ => {},
        }
        i += 1;
    }
    assert(all.take(events.len() as int) =~= all);
    found
}

/// The anchors of the headings of the Markdown document `text`.
pub open spec fn title_anchors_of(text: Seq<char>) -> Seq<Seq<char>> {
    titles(markdown_parsed(text)).found
}

/// Whether one of the headings of the Markdown document `buffer` has the
/// anchor `fragment`.
pub fn has_md_anchor(buffer: &str, fragment: &str) -> (found: bool)
    ensures
        found == title_anchors_of(buffer@).contains(fragment@),
{
    let events = markdown_events(buffer);
    let anchors = title_anchors(&events);
    let mut i: usize = 0;
    while i < anchors.len()
        invariant
            i <= anchors.len(),
            texts(anchors@) == title_anchors_of(buffer@),
            forall|k: int| 0 <= k < i ==> (#[trigger] texts(anchors@)[k]) != fragment@,
        decreases anchors.len() - i,
    {
        if same_text(anchors[i].as_str(), fragment) {
            assert(texts(anchors@)[i as int] == fragment@);
            return true;
        }
        i += 1;
    }
    false
}

} // verus!

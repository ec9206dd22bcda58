//! Anchors of Markdown headings, formed the way GitHub forms them.

use vstd::prelude::*;

use crate::pattern::regex_accepts;
use crate::pattern::regex_compiles;
use crate::pattern::regex_replace_all;
use crate::pattern::regex_replaced;
use crate::text::ascii_lower_char;
use crate::text::chars_of;
use crate::text::decimal;
use crate::text::decimal_digits;
use crate::text::join3;
use crate::text::lower_char;
use crate::text::same_text;
use crate::text::string_of;
use crate::text::texts;

verus! {

/// The pattern of what a heading loses on its way to an anchor: every
/// character that is neither a word character, nor a space, nor a hyphen.
pub open spec fn github_punctuation() -> Seq<char> {
    "[^\\w -]"@
}

/// What one character of a stripped heading becomes: ASCII capitals become
/// small letters, a space becomes a hyphen.
pub open spec fn slug_char(c: char) -> char {
    if c == ' ' {
        '-'
    } else {
        ascii_lower_char(c)
    }
}

/// The anchor of a heading whose punctuation has been stripped.
pub open spec fn slug(stripped: Seq<char>) -> Seq<char> {
    Seq::new(stripped.len(), |i: int| slug_char(stripped[i]))
}

/// The anchor for the `repetition`-th repeat of a heading: bare for the
/// first occurrence, with `-N` behind it for the N-th repeat.
pub open spec fn numbered(slug: Seq<char>, repetition: nat) -> Seq<char> {
    if repetition == 0 {
        slug
    } else {
        slug + "-"@ + decimal_digits(repetition)
    }
}

/// The anchor of the heading `text` at its `repetition`-th repeat.
pub open spec fn github_id(text: Seq<char>, repetition: nat) -> Seq<char> {
    numbered(slug(regex_replaced(github_punctuation(), text, Seq::empty())), repetition)
}

/// The anchor of a heading from its text with the punctuation stripped.
pub fn slug_of(stripped: &str, repetition: usize) -> (id: String)
    ensures
        id@ == numbered(slug(stripped@), repetition as nat),
{
    let chars = chars_of(stripped);
    let mut out: Vec<char> = Vec::new();
    let mut i: usize = 0;
    while i < chars.len()
        invariant
            i <= chars.len(),
            out@ == slug(chars@.take(i as int)),
        decreases chars.len() - i,
    {
        let c = chars[i];
        let mapped = if c == ' ' {
            '-'
        } else {
            lower_char(c)
        };
        out.push(mapped);
        assert(out@ =~= slug(chars@.take(i + 1)));
        i += 1;
    }
    assert(chars@.take(chars.len() as int) =~= chars@);
    let text = string_of(&out);
    if repetition == 0 {
        text
    } else {
        let number = decimal(repetition);
        join3(text.as_str(), "-", number.as_str())
    }
}

/// Turns heading texts into anchors. It exists only where the `regex` crate
/// accepts the punctuation pattern.
#[derive(Debug)]
pub struct GithubId {
    pattern: String,
}

impl GithubId {
    /// The pattern is the punctuation pattern, and the `regex` crate accepts it.
    #[verifier::type_invariant]
    spec fn accepted(self) -> bool {
        self.pattern@ == github_punctuation() && regex_accepts(self.pattern@)
    }

    /// The anchor maker, unless the punctuation pattern is refused.
    pub fn new() -> (made: Option<GithubId>)
        ensures
            made is Some <==> regex_accepts(github_punctuation()),
    {
        let pattern = "[^\\w -]";
        if regex_compiles(pattern) {
            Some(GithubId { pattern: pattern.to_owned() })
        } else {
            None
        }
    }

    /// The anchor of the heading `text` at its `repetition`-th repeat: strip
    /// the punctuation, make ASCII capitals small, put a hyphen for each
    /// space, and number every repeat.
    pub fn to_id(&self, text: &str, repetition: usize) -> (id: String)
        ensures
            id@ == github_id(text@, repetition as nat),
    {
        proof {
            use_type_invariant(self);
            reveal_strlit("");
            assert(""@ =~= Seq::<char>::empty());
        }
        match regex_replace_all(self.pattern.as_str(), text, "") {
            Some(stripped) => slug_of(stripped.as_str(), repetition),
            None => String::new(),
        }
    }
}

/// How often `x` occurs in `s`.
pub open spec fn occurrences(s: Seq<Seq<char>>, x: Seq<char>) -> nat
    decreases s.len(),
{
    if s.len() == 0 {
        0
    } else {
        occurrences(s.drop_last(), x) + if s.last() == x {
            1nat
        } else {
            0nat
        }
    }
}

/// The headings that a document has shown so far, by their text as written.
#[derive(Debug)]
pub struct Headers {
    seen: Vec<String>,
}

impl View for Headers {
    type V = Seq<Seq<char>>;

    closed spec fn view(&self) -> Seq<Seq<char>> {
        texts(self.seen@)
    }
}

impl Headers {
    /// The registrar of a document without headings.
    pub fn new() -> (h: Headers)
        ensures
            h@ == Seq::<Seq<char>>::empty(),
    {
        let h = Headers { seen: Vec::new() };
        assert(h@ =~= Seq::<Seq<char>>::empty());
        h
    }

    /// Takes note of one more heading and says how often the same text came
    /// before it: 0 for a first occurrence, N for the N-th repeat.
    pub fn register(&mut self, text: String) -> (count: usize)
        ensures
            count == occurrences(old(self)@, text@),
            final(self)@ == old(self)@.push(text@),
    {
        let mut count: usize = 0;
        let mut i: usize = 0;
        while i < self.seen.len()
            invariant
                i <= self.seen.len(),
                count == occurrences(self@.take(i as int), text@),
                count <= i,
            decreases self.seen.len() - i,
        {
            proof {
                assert(self@.take(i + 1).drop_last() =~= self@.take(i as int));
                assert(self@.take(i + 1).last() == self.seen@[i as int]@);
            }
            if same_text(self.seen[i].as_str(), text.as_str()) {
                count += 1;
            }
            i += 1;
        }
        assert(self@.take(self.seen.len() as int) =~= self@);
        self.seen.push(text);
        assert(self@ =~= old(self)@.push(text@));
        count
    }
}

/// The anchor of the `i`-th heading of a document: numbered by how often its
/// text came before.
pub open spec fn anchor_at(headings: Seq<Seq<char>>, i: int) -> Seq<char> {
    github_id(headings[i], occurrences(headings.take(i), headings[i]))
}

/// The anchors of a document's headings, heading by heading.
pub open spec fn anchors(headings: Seq<Seq<char>>) -> Seq<Seq<char>> {
    Seq::new(headings.len(), |i: int| anchor_at(headings, i))
}

/// The anchors of the headings `headings`, in the order of the headings.
pub fn heading_anchors(headings: &Vec<String>, id_transform: &GithubId) -> (ids: Vec<String>)
    ensures
        texts(ids@) == anchors(texts(headings@)),
{
    let mut registrar = Headers::new();
    let mut ids: Vec<String> = Vec::new();
    let mut i: usize = 0;
    while i < headings.len()
        invariant
            i <= headings.len(),
            registrar@ == texts(headings@).take(i as int),
            texts(ids@) == anchors(texts(headings@)).take(i as int),
        decreases headings.len() - i,
    {
        let ghost before = texts(ids@);
        let count = registrar.register(headings[i].clone());
        let id = id_transform.to_id(headings[i].as_str(), count);
        assert(id@ == anchor_at(texts(headings@), i as int));
        ids.push(id);
        proof {
            assert(registrar@ =~= texts(headings@).take(i + 1));
            assert(texts(ids@) =~= before.push(id@));
            assert(texts(ids@) =~= anchors(texts(headings@)).take(i + 1));
        }
        i += 1;
    }
    assert(anchors(texts(headings@)).take(headings.len() as int) =~= anchors(texts(headings@)));
    ids
}

/// Among headings that all read `text`, `text` came `i` times before the
/// `i`-th.
proof fn lemma_occurrences_of_repeats(headings: Seq<Seq<char>>, text: Seq<char>, i: int)
    requires
        0 <= i <= headings.len(),
        forall|j: int| 0 <= j < headings.len() ==> headings[j] == text,
    ensures
        occurrences(headings.take(i), text) == i,
    decreases i,
{
    if i > 0 {
        lemma_occurrences_of_repeats(headings, text, i - 1);
        assert(headings.take(i).drop_last() =~= headings.take(i - 1));
        assert(headings.take(i).last() == headings[i - 1]);
    }
}

/// A document that shows the same heading text again and again gets the
/// bare anchor for the first occurrence, then the anchor with `-1`, `-2` and
/// so on behind it, in that order.
pub proof fn lemma_repeated_heading(headings: Seq<Seq<char>>, text: Seq<char>, i: int)
    requires
        0 <= i < headings.len(),
        forall|j: int| 0 <= j < headings.len() ==> headings[j] == text,
    ensures
        anchors(headings)[i] == github_id(text, i as nat),
        i == 0 ==> anchors(headings)[i] == github_id(text, 0),
        i > 0 ==> anchors(headings)[i] == github_id(text, 0) + "-"@ + decimal_digits(i as nat),
{
    lemma_occurrences_of_repeats(headings, text, i);
}


} // verus!

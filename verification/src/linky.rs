//! Documents as sets of anchors, and the rules by which a fragment is matched
//! against them.

use std::sync::Arc;

use vstd::prelude::*;

use crate::charset::decoded;
use crate::charset::format_of;
use crate::charset::read_chars;
use crate::charset::ContentType;
use crate::charset::ContentTypeView;
use crate::charset::Format;
use crate::error::Error;
use crate::error::ErrorView;
use crate::error::Tag;
use crate::html::html_anchors;
use crate::html::html_ids;
use crate::link::Link;
use crate::markdown::markdown_anchors;
use crate::markdown::markdown_ids;
use crate::slug::GithubId;
use crate::text::contains_text;
use crate::text::distinct;
use crate::text::insert_distinct;
use crate::text::insert_text;
use crate::text::join2;
use crate::text::lemma_distinct;
use crate::text::lower_form;
use crate::text::option_text;
use crate::text::same_text;
use crate::text::slice_texts;
use crate::text::texts;
use crate::text::to_lower;

verus! {

/// The anchors that a document offers.
#[derive(Debug)]
pub struct Document {
    pub ids: Vec<String>,
}

impl View for Document {
    type V = Set<Seq<char>>;

    open spec fn view(&self) -> Set<Seq<char>> {
        texts(self.ids@).to_set()
    }
}

impl Document {
    /// No anchor is listed twice.
    pub open spec fn wf(&self) -> bool {
        texts(self.ids@).no_duplicates()
    }

    /// A document without any anchor of its own. The empty fragment still
    /// resolves against it, and nothing else does.
    pub fn empty() -> (d: Document)
        ensures
            d.wf(),
            d@ == Set::<Seq<char>>::empty(),
    {
        let d = Document { ids: Vec::new() };
        assert(d@ =~= Set::<Seq<char>>::empty());
        d
    }

    /// A document that offers the empty anchor and nothing else.
    pub fn new() -> (d: Document)
        ensures
            d.wf(),
            d@ == set![Seq::<char>::empty()],
    {
        let none: [&str; 0] = [];
        let d = Document::from(&none);
        assert(slice_texts(none@) =~= Seq::empty());
        assert(d@ =~= set![Seq::<char>::empty()]);
        d
    }

    /// A document that offers the empty anchor and the anchors `ids`.
    pub fn from(ids: &[&str]) -> (d: Document)
        ensures
            d.wf(),
            d@ == slice_texts(ids@).to_set().insert(Seq::<char>::empty()),
            texts(d.ids@) == distinct(seq![Seq::<char>::empty()] + slice_texts(ids@)),
    {
        let ghost all = seq![Seq::<char>::empty()] + slice_texts(ids@);
        let mut list: Vec<String> = Vec::new();
        list.push(String::new());
        proof {
            assert(all.take(1) =~= seq![Seq::<char>::empty()]);
            assert(all.take(1).drop_last() =~= Seq::empty());
            assert(distinct(all.take(1).drop_last()) =~= Seq::empty());
            assert(texts(list@) =~= distinct(all.take(1)));
        }
        let mut i: usize = 0;
        while i < ids.len()
            invariant
                i <= ids.len(),
                all == seq![Seq::<char>::empty()] + slice_texts(ids@),
                texts(list@) == distinct(all.take(i + 1)),
            decreases ids.len() - i,
        {
            proof {
                assert(all.take(i + 2).drop_last() =~= all.take(i + 1));
                assert(all.take(i + 2).last() == ids@[i as int]@);
            }
            insert_text(&mut list, ids[i].to_owned());
            i += 1;
        }
        let d = Document { ids: list };
        proof {
            assert(all.take(ids.len() + 1) =~= all);
            lemma_distinct(all);
            assert(all.to_set() =~= slice_texts(ids@).to_set().insert(Seq::<char>::empty())) by {
                assert forall|x: Seq<char>| all.contains(x) == (slice_texts(ids@).contains(x) || x
                    == Seq::<char>::empty()) by {
                    if all.contains(x) {
                        let k = choose|k: int| 0 <= k < all.len() && all[k] == x;
                        if k > 0 {
                            assert(slice_texts(ids@)[k - 1] == x);
                        }
                    }
                    if slice_texts(ids@).contains(x) {
                        let k = choose|k: int|
                            0 <= k < slice_texts(ids@).len() && slice_texts(ids@)[k] == x;
                        assert(all[k + 1] == x);
                    }
                    if x == Seq::<char>::empty() {
                        assert(all[0] == x);
                    }
                }
            }
        }
        d
    }

    /// Whether the document offers the anchor `id`.
    pub fn contains(&self, id: &str) -> (found: bool)
        ensures
            found == self@.contains(id@),
    {
        contains_text(&self.ids, id)
    }

    /// Adds the anchor `id` to the document.
    pub fn insert(&mut self, id: String)
        ensures
            old(self).wf() ==> final(self).wf(),
            final(self)@ == old(self)@.insert(id@),
            texts(final(self).ids@) == insert_distinct(texts(old(self).ids@), id@),
    {
        insert_text(&mut self.ids, id);
        proof {
            let before = texts(old(self).ids@);
            let after = texts(self.ids@);
            assert forall|x: Seq<char>| after.contains(x) == (before.contains(x) || x == id@) by {
                if after.contains(x) {
                    let k = choose|k: int| 0 <= k < after.len() && after[k] == x;
                    if k < before.len() {
                        assert(before[k] == x);
                    }
                }
                if before.contains(x) {
                    let k = choose|k: int| 0 <= k < before.len() && before[k] == x;
                    assert(after[k] == x);
                }
                if x == id@ && !before.contains(x) {
                    assert(after[after.len() - 1] == x);
                }
            }
            assert(self@ =~= old(self)@.insert(id@));
        }
    }
}

/// The anchors that a document of the kind `format` with the text `chars`
/// shows, in the order of the document.
pub open spec fn anchors_in(format: Format, chars: Seq<char>) -> Seq<Seq<char>> {
    match format {
        Format::Html => html_anchors(chars),
        Format::Markdown => markdown_anchors(chars),
    }
}

/// The document that the bytes `bytes` of the content type `content_type`
/// are. A content type that is not understood gives a document without
/// anchors of its own. Every document offers the empty anchor.
pub open spec fn parse_outcome(bytes: Seq<u8>, content_type: ContentTypeView) -> Result<
    Set<Seq<char>>,
    ErrorView,
> {
    match format_of(content_type) {
        None => Ok(set![Seq::<char>::empty()]),
        Some(format) => match decoded(bytes, content_type.charset) {
            Err(e) => Err(e),
            Ok(chars) => Ok(anchors_in(format, chars).to_set().insert(Seq::<char>::empty())),
        },
    }
}

/// Whether an exec result is the document or the error that the rules give.
pub open spec fn is_parsed(got: Result<Document, Error>, expected: Result<
    Set<Seq<char>>,
    ErrorView,
>) -> bool {
    match got {
        Ok(d) => d.wf() && expected == Ok::<Set<Seq<char>>, ErrorView>(d@),
        Err(e) => expected == Err::<Set<Seq<char>>, ErrorView>(e@),
    }
}

impl Document {
    /// Reads the anchors of a document from its bytes. HTML and Markdown
    /// are understood; the bytes of anything else are not looked at.
    pub fn parse(bytes: &[u8], content_type: &ContentType, id_transform: &GithubId) -> (r: Result<
        Document,
        Error,
    >)
        ensures
            is_parsed(r, parse_outcome(bytes@, content_type@)),
            r matches Ok(d) ==> d@.contains(Seq::<char>::empty()),
    {
        let format = match content_type.format() {
            Some(format) => format,
            None => {
                return Ok(Document::new());
            },
        };
        let charset_hint = match &content_type.charset {
            Some(charset) => Some(charset.clone()),
            None => None,
        };
        let chars = match read_chars(bytes, charset_hint) {
            Ok(chars) => chars,
            Err(e) => {
                return Err(e);
            },
        };
        let ids = match format {
            Format::Markdown => markdown_ids(chars.as_str(), id_transform),
            Format::Html => html_ids(chars.as_str()),
        };
        let ghost found = texts(ids@);
        let mut document = Document::new();
        let mut i: usize = 0;
        assert(document@ =~= found.take(0).to_set().insert(Seq::<char>::empty()));
        while i < ids.len()
            invariant
                i <= ids.len(),
                found == texts(ids@),
                document.wf(),
                document@ == found.take(i as int).to_set().insert(Seq::<char>::empty()),
            decreases ids.len() - i,
        {
            document.insert(ids[i].clone());
            proof {
                let before = found.take(i as int);
                let after = found.take(i + 1);
                assert(after =~= before.push(found[i as int]));
                assert forall|x: Seq<char>| after.contains(x) == (before.contains(x) || x
                    == found[i as int]) by {
                    if after.contains(x) {
                        let k = choose|k: int| 0 <= k < after.len() && after[k] == x;
                        if k < before.len() {
                            assert(before[k] == x);
                        }
                    }
                    if before.contains(x) {
                        let k = choose|k: int| 0 <= k < before.len() && before[k] == x;
                        assert(after[k] == x);
                    }
                    if x == found[i as int] {
                        assert(after[i as int] == x);
                    }
                }
                assert(document@ =~= after.to_set().insert(Seq::<char>::empty()));
            }
            i += 1;
        }
        assert(found.take(ids.len() as int) =~= found);
        Ok(document)
    }
}

/// The first of `prefixes` that, put before `fragment`, gives an anchor in `ids`.
pub open spec fn first_matching(
    prefixes: Seq<Seq<char>>,
    ids: Set<Seq<char>>,
    fragment: Seq<char>,
) -> Option<Seq<char>>
    decreases prefixes.len(),
{
    if prefixes.len() == 0 {
        None
    } else if ids.contains(prefixes[0] + fragment) {
        Some(prefixes[0])
    } else {
        first_matching(prefixes.skip(1), ids, fragment)
    }
}

/// The prefix under which `fragment` is found in `ids`: the empty prefix
/// where `ids` holds `fragment` itself, else the first configured prefix that
/// leads to an anchor.
pub open spec fn matching_prefix(
    prefixes: Seq<Seq<char>>,
    ids: Set<Seq<char>>,
    fragment: Seq<char>,
) -> Option<Seq<char>> {
    if ids.contains(fragment) {
        Some(Seq::empty())
    } else {
        first_matching(prefixes, ids, fragment)
    }
}

/// How a fragment fares against a document.
pub ghost enum Resolution {
    /// The fragment is empty, or the document holds it as it is written.
    Exact,
    /// The document holds the fragment behind this non-empty prefix.
    Prefixed(Seq<char>),
    /// The document holds the lower-case form of the fragment, which is this.
    CaseInsensitive(Seq<char>),
    /// None of these.
    Missing,
}

/// The empty fragment names the document itself, which is always there.
/// For any other fragment: exact match first, then the prefixes, then the
/// lower-case form without any prefix.
pub open spec fn resolution(
    prefixes: Seq<Seq<char>>,
    ids: Set<Seq<char>>,
    fragment: Seq<char>,
) -> Resolution {
    if fragment.len() == 0 {
        Resolution::Exact
    } else {
        match matching_prefix(prefixes, ids, fragment) {
            Some(prefix) => if prefix.len() == 0 {
                Resolution::Exact
            } else {
                Resolution::Prefixed(prefix)
            },
            None => if lower_form(fragment) != fragment && ids.contains(lower_form(fragment)) {
                Resolution::CaseInsensitive(lower_form(fragment))
            } else {
                Resolution::Missing
            },
        }
    }
}

/// What resolving `fragment` returns: success, or the error with its context.
pub open spec fn fragment_outcome(
    prefixes: Seq<Seq<char>>,
    ids: Set<Seq<char>>,
    fragment: Seq<char>,
) -> Result<(), ErrorView> {
    match resolution(prefixes, ids, fragment) {
        Resolution::Exact => Ok(()),
        Resolution::Prefixed(prefix) => Err(
            ErrorView {
                tag: Tag::Prefixed,
                msgs: seq!["prefix = "@ + prefix, "fragment = #"@ + fragment],
                cause: Seq::empty(),
            },
        ),
        Resolution::CaseInsensitive(anchor) => Err(
            ErrorView {
                tag: Tag::CaseInsensitiveFragment,
                msgs: seq!["anchor = #"@ + anchor, "fragment = #"@ + fragment],
                cause: Seq::empty(),
            },
        ),
        Resolution::Missing => Err(
            ErrorView {
                tag: Tag::NoFragment,
                msgs: seq!["fragment = #"@ + fragment],
                cause: Seq::empty(),
            },
        ),
    }
}

/// Whether an exec result is the result that the rules give.
pub open spec fn agrees(got: Result<(), Error>, expected: Result<(), ErrorView>) -> bool {
    match got {
        Ok(_) => expected is Ok,
        Err(e) => expected == Err::<(), ErrorView>(e@),
    }
}

/// The configured fragment prefixes.
#[derive(Debug)]
pub struct FragResolver {
    prefixes: Vec<String>,
}

impl View for FragResolver {
    type V = Seq<Seq<char>>;

    closed spec fn view(&self) -> Seq<Seq<char>> {
        texts(self.prefixes@)
    }
}

impl FragResolver {
    /// A resolver without prefixes.
    pub fn new() -> (r: FragResolver)
        ensures
            r@ == Seq::<Seq<char>>::empty(),
    {
        let r = FragResolver { prefixes: Vec::new() };
        assert(r@ =~= Seq::<Seq<char>>::empty());
        r
    }

    /// A resolver with the prefixes `prefixes`, each once, in the order in
    /// which they first occur.
    pub fn from(prefixes: &[&str]) -> (r: FragResolver)
        ensures
            r@ == distinct(slice_texts(prefixes@)),
    {
        let ghost all = slice_texts(prefixes@);
        let mut list: Vec<String> = Vec::new();
        assert(texts(list@) =~= distinct(all.take(0)));
        let mut i: usize = 0;
        while i < prefixes.len()
            invariant
                i <= prefixes.len(),
                all == slice_texts(prefixes@),
                texts(list@) == distinct(all.take(i as int)),
            decreases prefixes.len() - i,
        {
            proof {
                assert(all.take(i + 1).drop_last() =~= all.take(i as int));
                assert(all.take(i + 1).last() == prefixes@[i as int]@);
            }
            insert_text(&mut list, prefixes[i].to_owned());
            i += 1;
        }
        assert(all.take(prefixes.len() as int) =~= all);
        FragResolver { prefixes: list }
    }

    /// The prefix under which the document holds `fragment`: the empty one
    /// for the fragment as it is written, else the first configured prefix
    /// that leads to an anchor.
    pub fn find_prefix<'a>(&'a self, fragment: &str, document: &Document) -> (found: Option<
        &'a str,
    >)
        ensures
            match found {
                Some(prefix) => matching_prefix(self@, document@, fragment@) == Some(prefix@),
                None => matching_prefix(self@, document@, fragment@) is None,
            },
    {
        if document.contains(fragment) {
            proof {
                reveal_strlit("");
                assert(""@ =~= Seq::<char>::empty());
            }
            return Some("");
        }
        let mut i: usize = 0;
        assert(self@.skip(0) =~= self@);
        while i < self.prefixes.len()
            invariant
                i <= self.prefixes.len(),
                !document@.contains(fragment@),
                first_matching(self@, document@, fragment@) == first_matching(
                    self@.skip(i as int),
                    document@,
                    fragment@,
                ),
            decreases self.prefixes.len() - i,
        {
            let prefix = self.prefixes[i].as_str();
            let candidate = join2(prefix, fragment);
            assert(self@.skip(i as int)[0] == prefix@);
            if document.contains(candidate.as_str()) {
                return Some(prefix);
            }
            assert(self@.skip(i as int).skip(1) =~= self@.skip(i + 1));
            i += 1;
        }
        None
    }

    /// Resolves `fragment` against `document`. The empty fragment resolves
    /// against every document, also one without any anchor. For any other,
    /// the fragment as written wins over a prefixed anchor, that over the
    /// lower-case form, and the lower-case form is looked up without any
    /// prefix.
    pub fn fragment(&self, document: &Document, fragment: &str) -> (r: Result<(), Error>)
        ensures
            agrees(r, fragment_outcome(self@, document@, fragment@)),
            fragment@.len() == 0 ==> r is Ok,
    {
        if fragment.is_empty() {
            return Ok(());
        }
        match self.find_prefix(fragment, document) {
            Some(prefix) => {
                if prefix.is_empty() {
                    Ok(())
                } else {
                    let e = Tag::Prefixed.as_error().context(join2("prefix = ", prefix)).context(
                        join2("fragment = #", fragment),
                    );
                    assert(e@.msgs =~= seq!["prefix = "@ + prefix@, "fragment = #"@ + fragment@]);
                    Err(e)
                }
            },
            None => {
                let fragment_lc = to_lower(fragment);
                if !same_text(fragment_lc.as_str(), fragment) && document.contains(
                    fragment_lc.as_str(),
                ) {
                    let e = Tag::CaseInsensitiveFragment.as_error().context(
                        join2("anchor = #", fragment_lc.as_str()),
                    ).context(join2("fragment = #", fragment));
                    assert(e@.msgs =~= seq![
                        "anchor = #"@ + fragment_lc@,
                        "fragment = #"@ + fragment@,
                    ]);
                    Err(e)
                } else {
                    let e = Tag::NoFragment.as_error().context(join2("fragment = #", fragment));
                    assert(e@.msgs =~= seq!["fragment = #"@ + fragment@]);
                    Err(e)
                }
            },
        }
    }
}

/// `Arc::clone` gives a second pointer to the same error.
#[verifier::external_body]
fn share(err: &Arc<Error>) -> (copy: Arc<Error>)
    ensures
        copy == *err,
{
    Arc::clone(err)
}

/// What checking a link against the result of a fetch returns.
pub open spec fn link_outcome(
    prefixes: Seq<Seq<char>>,
    document: Result<Set<Seq<char>>, ErrorView>,
    base: Seq<char>,
    fragment: Option<Seq<char>>,
) -> Result<(), ErrorView> {
    match document {
        Err(e) => Err(e),
        Ok(ids) => match fragment {
            None => Ok(()),
            Some(f) => match fragment_outcome(prefixes, ids, f) {
                Ok(_) => Ok(()),
                Err(e) => Err(ErrorView { msgs: e.msgs.push("link = "@ + base), ..e }),
            },
        },
    }
}

/// What a fetch gave, as the rules see it.
pub open spec fn fetched(document: Result<Document, Arc<Error>>) -> Result<
    Set<Seq<char>>,
    ErrorView,
> {
    match document {
        Ok(d) => Ok(d@),
        Err(e) => Err(e@),
    }
}

/// Whether `r` is what checking a link against `document` gives. Nothing is
/// checked where nothing was fetched; a failed fetch is handed on as it is;
/// else the link is checked against the document.
pub open spec fn is_link_result(
    prefixes: Seq<Seq<char>>,
    document: Option<Result<Document, Arc<Error>>>,
    base: Seq<char>,
    fragment: Option<Seq<char>>,
    r: Option<Result<(), Arc<Error>>>,
) -> bool {
    &&& document is None <==> r is None
    &&& document matches Some(Err(e)) ==> r == Some(Err::<(), Arc<Error>>(e))
    &&& document matches Some(fetch) ==> r matches Some(got) && match got {
        Ok(_) => link_outcome(prefixes, fetched(fetch), base, fragment) is Ok,
        Err(e) => link_outcome(prefixes, fetched(fetch), base, fragment) == Err::<(), ErrorView>(
            e@,
        ),
    }
}

impl FragResolver {
    /// Checks one link of a group against what fetching the group's target
    /// gave. Nothing is checked where nothing was fetched. A failed fetch is
    /// handed on as it is; a link without a fragment is fine once the
    /// document is there; a fragment is resolved, and a failure names the
    /// link as its outermost context.
    pub fn link(
        &self,
        document: &Option<Result<Document, Arc<Error>>>,
        base: &Link,
        fragment: &Option<String>,
    ) -> (r: Option<Result<(), Arc<Error>>>)
        ensures
            is_link_result(self@, *document, base@.text(), option_text(*fragment), r),
    {
        match document {
            None => None,
            Some(Err(e)) => Some(Err(share(e))),
            Some(Ok(d)) => match fragment {
                None => Some(Ok(())),
                Some(f) => match self.fragment(d, f.as_str()) {
                    Ok(_) => Some(Ok(())),
                    Err(e) => {
                        let target = base.to_string();
                        Some(Err(Arc::new(e.context(join2("link = ", target.as_str())))))
                    },
                },
            },
        }
    }
}

/// A fragment that the document holds resolves, whatever the prefixes are.
pub proof fn lemma_present_fragment_resolves(
    prefixes: Seq<Seq<char>>,
    ids: Set<Seq<char>>,
    fragment: Seq<char>,
)
    requires
        ids.contains(fragment),
    ensures
        fragment_outcome(prefixes, ids, fragment) is Ok,
{
}

/// The empty fragment resolves against every document, whatever the
/// prefixes are, also where the document holds no anchor at all.
pub proof fn lemma_empty_fragment_resolves(prefixes: Seq<Seq<char>>, ids: Set<Seq<char>>)
    ensures
        fragment_outcome(prefixes, ids, Seq::<char>::empty()) is Ok,
{
}

/// No prefix of `prefixes` leads from `fragment` to an anchor of `ids`.
pub open spec fn no_prefix_matches(
    prefixes: Seq<Seq<char>>,
    ids: Set<Seq<char>>,
    fragment: Seq<char>,
) -> bool {
    forall|i: int| 0 <= i < prefixes.len() ==> !ids.contains(#[trigger] prefixes[i] + fragment)
}

/// Where no prefix matches, none is found.
pub proof fn lemma_first_matching_none(
    prefixes: Seq<Seq<char>>,
    ids: Set<Seq<char>>,
    fragment: Seq<char>,
)
    requires
        no_prefix_matches(prefixes, ids, fragment),
    ensures
        first_matching(prefixes, ids, fragment) is None,
    decreases prefixes.len(),
{
    if prefixes.len() > 0 {
        assert(!ids.contains(prefixes[0] + fragment));
        assert forall|i: int| 0 <= i < prefixes.skip(1).len() implies !ids.contains(
            #[trigger] prefixes.skip(1)[i] + fragment,
        ) by {
            assert(prefixes.skip(1)[i] == prefixes[i + 1]);
        }
        lemma_first_matching_none(prefixes.skip(1), ids, fragment);
    }
}

/// A fragment that is not empty and that the document holds neither as
/// written, nor behind a configured prefix, nor in its lower-case form, is
/// reported as not found.
pub proof fn lemma_absent_fragment_fails(
    prefixes: Seq<Seq<char>>,
    ids: Set<Seq<char>>,
    fragment: Seq<char>,
)
    requires
        fragment.len() > 0,
        !ids.contains(fragment),
        no_prefix_matches(prefixes, ids, fragment),
        !ids.contains(lower_form(fragment)),
    ensures
        fragment_outcome(prefixes, ids, fragment) matches Err(e) && e.tag == Tag::NoFragment,
{
    lemma_first_matching_none(prefixes, ids, fragment);
}

/// A fragment that is not empty and is found only behind a configured
/// prefix is reported as prefixed, never as not found.
pub proof fn lemma_prefixed_fragment_is_told_apart(
    prefixes: Seq<Seq<char>>,
    ids: Set<Seq<char>>,
    fragment: Seq<char>,
    i: int,
)
    requires
        fragment.len() > 0,
        !ids.contains(fragment),
        0 <= i < prefixes.len(),
        ids.contains(prefixes[i] + fragment),
    ensures
        fragment_outcome(prefixes, ids, fragment) matches Err(e) && e.tag == Tag::Prefixed,
    decreases prefixes.len(),
{
    if ids.contains(prefixes[0] + fragment) {
        if prefixes[0].len() == 0 {
            assert(prefixes[0] + fragment =~= fragment);
        }
    } else {
        assert(prefixes.skip(1)[i - 1] == prefixes[i]);
        lemma_prefixed_fragment_is_told_apart(prefixes.skip(1), ids, fragment, i - 1);
    }
}


} // verus!

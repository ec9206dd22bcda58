//! The anchors of an HTML document: the `id` of any element and the `name`
//! of an `a` element.

use vstd::prelude::*;

use crate::text::chars_of;
use crate::text::same_text;
use crate::text::texts;

verus! {

/// What a list of pairs of strings holds.
pub open spec fn pair_texts(pairs: Seq<(String, String)>) -> Seq<(Seq<char>, Seq<char>)> {
    Seq::new(pairs.len(), |i: int| (pairs[i].0@, pairs[i].1@))
}

/// The pieces that `htmlstream::tag_iter` cuts `html` into, each with its
/// tag name and the text of its attributes. A piece of plain text has
/// neither.
pub uninterp spec fn html_tags(html: Seq<char>) -> Seq<(Seq<char>, Seq<char>)>;

/// The attributes that `htmlstream::attr_iter` finds in the attribute text
/// of a tag, each with its name and its value.
pub uninterp spec fn html_attributes(attributes: Seq<char>) -> Seq<(Seq<char>, Seq<char>)>;

/// Walks `htmlstream::tag_iter` over `html` and keeps the name and the
/// attribute text of each piece.
#[verifier::external_body]
fn tag_iter(html: &str) -> (tags: Vec<(String, String)>)
    ensures
        pair_texts(tags@) == html_tags(html@),
{
    htmlstream::tag_iter(html).map(|(_, tag)| (tag.name, tag.attributes)).collect()
}

/// Where `htmlstream::attr_iter` stands after some of the attribute text:
/// whether it is inside an attribute, whether that attribute has had its
/// first `=`, and whether it is inside a quoted value and behind which
/// quotation mark.
pub ghost struct AttrScan {
    pub inside: bool,
    pub named: bool,
    pub quoted: bool,
    pub quote: char,
    /// The character to come is the first one behind the first `=`.
    pub fresh: bool,
    /// The first character behind the first `=` is wider than one byte.
    pub wide: bool,
    /// Some quoted value so far was cut inside a character.
    pub cut: bool,
}

/// One character further, `prev` being the character before `c`. An
/// attribute begins at a character that is no blank. Its first `=` opens the
/// value. A quotation mark right behind a `=` opens a quoted value, which the
/// same mark closes. A blank outside a quoted value ends the attribute. When
/// a quoted value closes, the iterator cuts it one byte behind the first
/// `=`: that is inside a character where a wide one stands there.
pub open spec fn scan_attr(st: AttrScan, prev: char, c: char) -> AttrScan {
    if st.inside {
        if st.named {
            let wide = if st.fresh {
                c > '\x7f'
            } else {
                st.wide
            };
            let st1 = AttrScan { fresh: false, wide, ..st };
            if st.quoted {
                if c == st.quote {
                    AttrScan {
                        inside: false,
                        named: false,
                        quoted: false,
                        cut: st.cut || wide,
                        ..st1
                    }
                } else {
                    st1
                }
            } else if c == '\'' || c == '"' {
                if prev == '=' {
                    AttrScan { quoted: true, quote: c, ..st1 }
                } else {
                    st1
                }
            } else if c <= ' ' {
                AttrScan { inside: false, named: false, quoted: false, ..st1 }
            } else {
                st1
            }
        } else if c == '=' {
            AttrScan { named: true, fresh: true, ..st }
        } else if c <= ' ' {
            AttrScan { inside: false, ..st }
        } else {
            st
        }
    } else if c <= ' ' {
        st
    } else {
        AttrScan { inside: true, named: false, quoted: false, ..st }
    }
}

/// Where the iterator stands after all of `s`.
pub open spec fn attr_scan(s: Seq<char>) -> AttrScan
    decreases s.len(),
{
    if s.len() == 0 {
        AttrScan {
            inside: false,
            named: false,
            quoted: false,
            quote: '"',
            fresh: false,
            wide: false,
            cut: false,
        }
    } else {
        scan_attr(
            attr_scan(s.drop_last()),
            if s.len() >= 2 {
                s[s.len() - 2]
            } else {
                ' '
            },
            s.last(),
        )
    }
}

/// Attribute text that `htmlstream::attr_iter` can be trusted with: it cuts
/// no quoted value inside a character.
pub open spec fn attributes_are_safe(s: Seq<char>) -> bool {
    !attr_scan(s).cut
}

/// Walks `htmlstream::attr_iter` over the attribute text of a tag and keeps
/// the name and the value of each attribute. The iterator cuts its text at
/// an `=`, at a quotation mark, at a blank, at the beginning of an
/// attribute, and, for a quoted value, one byte behind the first `=` of the
/// attribute. Only the last of these can fall inside a character, and a cut
/// inside a character is what it cannot survive.
#[verifier::external_body]
fn attr_iter(attributes: &str) -> (found: Vec<(String, String)>)
    requires
        attributes_are_safe(attributes@),
    ensures
        pair_texts(found@) == html_attributes(attributes@),
{
    htmlstream::attr_iter(attributes).map(|(_, attr)| (attr.name, attr.value)).collect()
}

/// Whether `attributes` is attribute text that the attribute iterator can
/// be trusted with.
pub fn check_attributes(attributes: &str) -> (safe: bool)
    ensures
        safe == attributes_are_safe(attributes@),
{
    let chars = chars_of(attributes);
    let mut inside = false;
    let mut named = false;
    let mut quoted = false;
    let mut quote = '"';
    let mut fresh = false;
    let mut wide = false;
    let mut cut = false;
    let mut prev = ' ';
    let mut i: usize = 0;
    assert(chars@.take(0) =~= Seq::<char>::empty());
    while i < chars.len()
        invariant
            i <= chars.len(),
            prev == if i >= 1 {
                chars@[i - 1]
            } else {
                ' '
            },
            attr_scan(chars@.take(i as int)) == (AttrScan {
                inside,
                named,
                quoted,
                quote,
                fresh,
                wide,
                cut,
            }),
        decreases chars.len() - i,
    {
        let c = chars[i];
        proof {
            let next = chars@.take(i + 1);
            assert(next.drop_last() =~= chars@.take(i as int));
            assert(next.last() == c);
            if i >= 1 {
                assert(next[next.len() - 2] == prev);
            }
        }
        if inside {
            if named {
                if fresh {
                    wide = c > '\x7f';
                    fresh = false;
                }
                if quoted {
                    if c == quote {
                        inside = false;
                        named = false;
                        quoted = false;
                        cut = cut || wide;
                    }
                } else if c == '\'' || c == '"' {
                    if prev == '=' {
                        quoted = true;
                        quote = c;
                    }
                } else if c <= ' ' {
                    inside = false;
                    named = false;
                    quoted = false;
                }
            } else if c == '=' {
                named = true;
                fresh = true;
            } else if c <= ' ' {
                inside = false;
            }
        } else if c > ' ' {
            inside = true;
            named = false;
            quoted = false;
        }
        prev = c;
        i += 1;
    }
    assert(chars@.take(chars.len() as int) =~= chars@);
    !cut
}

/// The attributes of a tag. A tag whose attribute text the iterator cannot
/// be trusted with counts as having none.
pub open spec fn attributes_of(attributes: Seq<char>) -> Seq<(Seq<char>, Seq<char>)> {
    if attributes_are_safe(attributes) {
        html_attributes(attributes)
    } else {
        Seq::empty()
    }
}

/// Whether an attribute names an anchor: `id` does on any element, `name`
/// on an `a` element.
pub open spec fn names_anchor(tag: Seq<char>, attribute: Seq<char>) -> bool {
    attribute == "id"@ || (tag == "a"@ && attribute == "name"@)
}

/// The anchors among the attributes of one tag, in order.
pub open spec fn tag_anchors(tag: Seq<char>, attributes: Seq<(Seq<char>, Seq<char>)>) -> Seq<
    Seq<char>,
>
    decreases attributes.len(),
{
    if attributes.len() == 0 {
        Seq::empty()
    } else if names_anchor(tag, attributes.last().0) {
        tag_anchors(tag, attributes.drop_last()).push(attributes.last().1)
    } else {
        tag_anchors(tag, attributes.drop_last())
    }
}

/// The anchors of the tags `tags`, tag by tag.
pub open spec fn anchors_of_tags(tags: Seq<(Seq<char>, Seq<char>)>) -> Seq<Seq<char>>
    decreases tags.len(),
{
    if tags.len() == 0 {
        Seq::empty()
    } else {
        anchors_of_tags(tags.drop_last()) + tag_anchors(
            tags.last().0,
            attributes_of(tags.last().1),
        )
    }
}

/// The anchors of the HTML document `html`, in the order of the document.
pub open spec fn html_anchors(html: Seq<char>) -> Seq<Seq<char>> {
    anchors_of_tags(html_tags(html))
}

/// The anchors of the HTML document `html`: the value of every `id`
/// attribute, and of every `name` attribute of an `a` element.
pub fn html_ids(html: &str) -> (ids: Vec<String>)
    ensures
        texts(ids@) == html_anchors(html@),
{
    let tags = tag_iter(html);
    let ghost all = pair_texts(tags@);
    let mut ids: Vec<String> = Vec::new();
    let mut i: usize = 0;
    assert(texts(ids@) =~= anchors_of_tags(all.take(0)));
    while i < tags.len()
        invariant
            i <= tags.len(),
            all == pair_texts(tags@),
            texts(ids@) == anchors_of_tags(all.take(i as int)),
        decreases tags.len() - i,
    {
        let name = tags[i].0.as_str();
        let attributes = tags[i].1.as_str();
        proof {
            assert(all.take(i + 1).drop_last() =~= all.take(i as int));
            assert(all.take(i + 1).last() == (name@, attributes@));
        }
        if check_attributes(attributes) {
            let found = attr_iter(attributes);
            let ghost pairs = pair_texts(found@);
            let ghost before = texts(ids@);
            let mut j: usize = 0;
            assert(texts(ids@) =~= before + tag_anchors(name@, pairs.take(0)));
            while j < found.len()
                invariant
                    j <= found.len(),
                    pairs == pair_texts(found@),
                    texts(ids@) == before + tag_anchors(name@, pairs.take(j as int)),
                decreases found.len() - j,
            {
                let attribute = found[j].0.as_str();
                proof {
                    assert(pairs.take(j + 1).drop_last() =~= pairs.take(j as int));
                    assert(pairs.take(j + 1).last() == (attribute@, found@[j as int].1@));
                }
                if same_text(attribute, "id") || (same_text(name, "a") && same_text(
                    attribute,
                    "name",
                )) {
                    let ghost so_far = texts(ids@);
                    ids.push(found[j].1.clone());
                    assert(texts(ids@) =~= so_far.push(found@[j as int].1@));
                    assert(texts(ids@) =~= before + tag_anchors(name@, pairs.take(j + 1)));
                }
                j += 1;
            }
            assert(pairs.take(found.len() as int) =~= pairs);
        } else {
            assert(texts(ids@) + Seq::<Seq<char>>::empty() =~= texts(ids@));
        }
        i += 1;
    }
    assert(all.take(tags.len() as int) =~= all);
    ids
}

/// Whether an attribute names an anchor of an `a` element: `name` and `id`
/// do.
pub open spec fn names_link_anchor(attribute: Seq<char>) -> bool {
    attribute == "name"@ || attribute == "id"@
}

/// One of `attributes` names the anchor `anchor`.
pub open spec fn attributes_hold(attributes: Seq<(Seq<char>, Seq<char>)>, anchor: Seq<char>) -> bool {
    exists|j: int|
        0 <= j < attributes.len() && names_link_anchor((#[trigger] attributes[j]).0)
            && attributes[j].1 == anchor
}

/// One of the `a` elements among `tags` has the anchor `anchor`.
pub open spec fn tags_hold(tags: Seq<(Seq<char>, Seq<char>)>, anchor: Seq<char>) -> bool {
    exists|i: int|
        0 <= i < tags.len() && (#[trigger] tags[i]).0 == "a"@ && attributes_hold(
            attributes_of(tags[i].1),
            anchor,
        )
}

/// Whether an `a` element of the HTML document `buffer` has `anchor` as its
/// `name` or as its `id`.
pub fn has_html_anchor(buffer: &str, anchor: &str) -> (found: bool)
    ensures
        found == tags_hold(html_tags(buffer@), anchor@),
{
    let tags = tag_iter(buffer);
    let ghost all = pair_texts(tags@);
    let mut i: usize = 0;
    while i < tags.len()
        invariant
            i <= tags.len(),
            all == pair_texts(tags@),
            all == html_tags(buffer@),
            forall|k: int|
                0 <= k < i ==> !((#[trigger] all[k]).0 == "a"@ && attributes_hold(
                    attributes_of(all[k].1),
                    anchor@,
                )),
        decreases tags.len() - i,
    {
        let name = tags[i].0.as_str();
        let attributes = tags[i].1.as_str();
        assert(all[i as int] == (name@, attributes@));
        if same_text(name, "a") && check_attributes(attributes) {
            let found = attr_iter(attributes);
            let ghost pairs = pair_texts(found@);
            let mut j: usize = 0;
            while j < found.len()
                invariant
                    j <= found.len(),
                    pairs == pair_texts(found@),
                    pairs == attributes_of(attributes@),
                    all == html_tags(buffer@),
                    0 <= i < all.len(),
                    all[i as int] == (name@, attributes@),
                    name@ == "a"@,
                    forall|k: int|
                        0 <= k < j ==> !(names_link_anchor((#[trigger] pairs[k]).0) && pairs[k].1
                            == anchor@),
                decreases found.len() - j,
            {
                let attribute = found[j].0.as_str();
                assert(pairs[j as int] == (attribute@, found@[j as int].1@));
                if (same_text(attribute, "name") || same_text(attribute, "id")) && same_text(
                    found[j].1.as_str(),
                    anchor,
                ) {
                    assert(attributes_hold(attributes_of(all[i as int].1), anchor@));
                    return true;
                }
                j += 1;
            }
        }
        i += 1;
    }
    false
}


} // verus!

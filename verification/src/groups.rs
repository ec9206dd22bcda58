//! Links grouped by their target, so that each target is fetched once.

use std::sync::Arc;

use vstd::prelude::*;

use crate::error::Error;
use crate::link::Link;
use crate::link::LinkView;
use crate::linky::is_link_result;
use crate::linky::Document;
use crate::linky::FragResolver;
use crate::orderer::Item;
use crate::record::Record;
use crate::text::option_text;

verus! {

/// The links that share one target: their place in the input, their
/// fragment, and where they were found.
#[derive(Debug)]
pub struct Group {
    pub link: Link,
    pub members: Vec<(usize, Option<String>, Record)>,
}

/// What a [`Group`] holds.
pub ghost struct GroupView {
    pub link: LinkView,
    pub members: Seq<(usize, Option<String>, Record)>,
}

impl View for Group {
    type V = GroupView;

    open spec fn view(&self) -> GroupView {
        GroupView { link: self.link@, members: self.members@ }
    }
}

/// What a list of groups holds.
pub open spec fn group_views(groups: Seq<Group>) -> Seq<GroupView> {
    Seq::new(groups.len(), |i: int| groups[i]@)
}

/// One of `groups` has the target `link`.
pub open spec fn has_group(groups: Seq<GroupView>, link: LinkView) -> bool {
    exists|k: int| 0 <= k < groups.len() && (#[trigger] groups[k]).link == link
}

/// No two of `groups` have the same target.
pub open spec fn distinct_targets(groups: Seq<GroupView>) -> bool {
    forall|i: int, j: int|
        0 <= i < groups.len() && 0 <= j < groups.len() && i != j ==> (#[trigger] groups[i]).link
            != (#[trigger] groups[j]).link
}

/// `groups` after one more link: it joins the group of its target at the
/// end, or founds a new group behind the others.
pub open spec fn with_member(
    groups: Seq<GroupView>,
    link: LinkView,
    member: (usize, Option<String>, Record),
) -> Seq<GroupView> {
    if has_group(groups, link) {
        let k = choose|k: int| 0 <= k < groups.len() && (#[trigger] groups[k]).link == link;
        groups.update(k, GroupView { link, members: groups[k].members.push(member) })
    } else {
        groups.push(GroupView { link, members: seq![member] })
    }
}

/// Groups of links, no two of them with the same target.
#[derive(Debug)]
pub struct Groups {
    list: Vec<Group>,
}

impl View for Groups {
    type V = Seq<GroupView>;

    closed spec fn view(&self) -> Seq<GroupView> {
        group_views(self.list@)
    }
}

impl Groups {
    /// No two groups have the same target.
    #[verifier::type_invariant]
    spec fn one_group_per_target(self) -> bool {
        distinct_targets(group_views(self.list@))
    }

    /// No groups.
    pub fn new() -> (groups: Groups)
        ensures
            groups@ == Seq::<GroupView>::empty(),
    {
        let groups = Groups { list: Vec::new() };
        assert(groups@ =~= Seq::<GroupView>::empty());
        groups
    }

    /// How many groups there are, which is how many targets there are.
    pub fn len(&self) -> (n: usize)
        ensures
            n == self@.len(),
    {
        self.list.len()
    }

    /// The groups, in the order in which their targets first occurred.
    pub fn into_vec(self) -> (list: Vec<Group>)
        ensures
            group_views(list@) == self@,
            distinct_targets(self@),
    {
        proof {
            use_type_invariant(&self);
        }
        self.list
    }
}

/// Adds one link to the groups gathered so far.
pub fn group_fragments(acc: Groups, link: (usize, (Record, Link, Option<String>))) -> (groups:
    Groups)
    ensures
        groups@ == with_member(acc@, link.1.1@, (link.0, link.1.2, link.1.0)),
{
    proof {
        use_type_invariant(&acc);
    }
    let (index, (record, base, fragment)) = link;
    let ghost before = acc@;
    let ghost member = (index, fragment, record);
    let ghost target = with_member(before, base@, member);
    assert(member == (link.0, link.1.2, link.1.0));
    assert(base@ == link.1.1@);
    let mut list = acc.list;
    let mut i: usize = 0;
    while i < list.len()
        invariant
            i <= list.len(),
            group_views(list@) == before,
            before == acc@,
            distinct_targets(before),
            member == (index, fragment, record),
            member == (link.0, link.1.2, link.1.0),
            base@ == link.1.1@,
            target == with_member(before, base@, member),
            forall|k: int| 0 <= k < i ==> (#[trigger] before[k]).link != base@,
        decreases list.len() - i,
    {
        if list[i].link.same(&base) {
            assert(before[i as int].link == base@);
            let ghost k = choose|k: int|
                0 <= k < before.len() && (#[trigger] before[k]).link == base@;
            assert(k == i);
            assert(has_group(before, base@));
            let mut group = list.remove(i);
            group.members.push((index, fragment, record));
            list.insert(i, group);
            proof {
                let after = group_views(list@);
                let expected = before.update(
                    i as int,
                    GroupView {
                        link: base@,
                        members: before[i as int].members.push((index, fragment, record)),
                    },
                );
                assert(after =~= expected);
                assert(target == expected);
                assert forall|a: int, b: int|
                    0 <= a < after.len() && 0 <= b < after.len() && a != b implies (
                #[trigger] after[a]).link != (#[trigger] after[b]).link by {
                    assert(after[a].link == before[a].link);
                    assert(after[b].link == before[b].link);
                }
            }
            return Groups { list };
        }
        i += 1;
    }
    let mut members: Vec<(usize, Option<String>, Record)> = Vec::new();
    members.push((index, fragment, record));
    list.push(Group { link: base, members });
    proof {
        let after = group_views(list@);
        assert(!has_group(before, base@));
        assert(after =~= before.push(
            GroupView { link: base@, members: seq![(index, fragment, record)] },
        ));
        assert forall|a: int, b: int|
            0 <= a < after.len() && 0 <= b < after.len() && a != b implies (#[trigger] after[a]).link
            != (#[trigger] after[b]).link by {
            if a < before.len() {
                assert(after[a] == before[a]);
            }
            if b < before.len() {
                assert(after[b] == before[b]);
            }
        }
    }
    Groups { list }
}

/// Checks the links of one group against what fetching the group's target
/// gave: one result for each member, in the order of the members, each
/// with the number of its place in the input.
pub fn resolve_group(
    resolver: &FragResolver,
    document: &Option<Result<Document, Arc<Error>>>,
    group: Group,
) -> (items: Vec<Item<(Record, Option<Result<(), Arc<Error>>>)>>)
    ensures
        items@.len() == group.members@.len(),
        forall|i: int|
            0 <= i < items@.len() ==> {
                let member = group.members@[i];
                let item = #[trigger] items@[i];
                &&& item.index == member.0
                &&& item.value.0 == member.2
                &&& is_link_result(
                    resolver@,
                    *document,
                    group.link@.text(),
                    option_text(member.1),
                    item.value.1,
                )
            },
{
    let Group { link, members } = group;
    let ghost all = members@;
    let mut rest = members;
    let mut items: Vec<Item<(Record, Option<Result<(), Arc<Error>>>)>> = Vec::new();
    while rest.len() > 0
        invariant
            items@.len() + rest@.len() == all.len(),
            rest@ == all.skip(items@.len() as int),
            forall|i: int|
                0 <= i < items@.len() ==> {
                    let member = all[i];
                    let item = #[trigger] items@[i];
                    &&& item.index == member.0
                    &&& item.value.0 == member.2
                    &&& is_link_result(
                        resolver@,
                        *document,
                        link@.text(),
                        option_text(member.1),
                        item.value.1,
                    )
                },
        decreases rest.len(),
    {
        let ghost done = items@.len() as int;
        let (index, fragment, record) = rest.remove(0);
        assert(all[done] == (index, fragment, record));
        assert(rest@ =~= all.skip(done + 1));
        let value = resolver.link(document, &link, &fragment);
        items.push(Item { index, value: (record, value) });
    }
    items
}

/// The groups of the links `entries`, numbered in the order in which they
/// stand.
pub open spec fn grouped(entries: Seq<(Record, Link, Option<String>)>) -> Seq<GroupView>
    decreases entries.len(),
{
    if entries.len() == 0 {
        Seq::empty()
    } else {
        let last = entries.last();
        with_member(
            grouped(entries.drop_last()),
            last.1@,
            ((entries.len() - 1) as usize, last.2, last.0),
        )
    }
}

/// Groups the links `entries` by their target. Each link keeps the number of
/// its place in `entries`.
pub fn group_all(entries: Vec<(Record, Link, Option<String>)>) -> (groups: Groups)
    ensures
        groups@ == grouped(entries@),
{
    let ghost all = entries@;
    let total = entries.len();
    let mut rest = entries;
    let mut groups = Groups::new();
    let mut index: usize = 0;
    assert(groups@ =~= grouped(all.take(0)));
    while rest.len() > 0
        invariant
            all.len() == total,
            index + rest.len() == all.len(),
            rest@ == all.skip(index as int),
            groups@ == grouped(all.take(index as int)),
        decreases rest.len(),
    {
        let entry = rest.remove(0);
        proof {
            assert(entry == all[index as int]);
            assert(all.take(index + 1).drop_last() =~= all.take(index as int));
            assert(all.take(index + 1).last() == entry);
            assert(rest@ =~= all.skip(index + 1));
        }
        groups = group_fragments(groups, (index, entry));
        index += 1;
    }
    assert(all.take(all.len() as int) =~= all);
    groups
}

/// The group of the target `link` holds `member`.
pub open spec fn is_member(
    groups: Seq<GroupView>,
    link: LinkView,
    member: (usize, Option<String>, Record),
) -> bool {
    exists|k: int|
        0 <= k < groups.len() && (#[trigger] groups[k]).link == link && groups[k].members.contains(
            member,
        )
}

/// The member that the `i`-th of `entries` becomes.
pub open spec fn member_of(entries: Seq<(Record, Link, Option<String>)>, i: int) -> (
    usize,
    Option<String>,
    Record,
) {
    (i as usize, entries[i].2, entries[i].0)
}

/// Every member of every group is one of `entries`, in the group of its own
/// target, and the members of a group stand in the order of the input.
pub open spec fn members_from(
    groups: Seq<GroupView>,
    entries: Seq<(Record, Link, Option<String>)>,
) -> bool {
    forall|k: int, j: int|
        0 <= k < groups.len() && 0 <= j < groups[k].members.len() ==> {
            let m = #[trigger] groups[k].members[j];
            &&& m.0 < entries.len()
            &&& m == member_of(entries, m.0 as int)
            &&& entries[m.0 as int].1@ == groups[k].link
            &&& j > 0 ==> groups[k].members[j - 1].0 < m.0
        }
}

/// What one more link does to groups with distinct targets: it lands in the
/// group of its target, which is new where the target is new, and leaves
/// every other group as it was.
proof fn lemma_with_member(
    groups: Seq<GroupView>,
    link: LinkView,
    member: (usize, Option<String>, Record),
)
    requires
        distinct_targets(groups),
    ensures
        distinct_targets(with_member(groups, link, member)),
        is_member(with_member(groups, link, member), link, member),
        with_member(groups, link, member).len() >= groups.len(),
        forall|k: int|
            0 <= k < groups.len() ==> (#[trigger] with_member(groups, link, member)[k]).link
                == groups[k].link,
        forall|k: int|
            0 <= k < groups.len() && groups[k].link != link ==> (#[trigger] with_member(
                groups,
                link,
                member,
            )[k]) == groups[k],
        forall|k: int|
            0 <= k < groups.len() && groups[k].link == link ==> (#[trigger] with_member(
                groups,
                link,
                member,
            )[k]).members == groups[k].members.push(member),
        forall|k: int|
            groups.len() <= k < with_member(groups, link, member).len() ==> (#[trigger] with_member(
                groups,
                link,
                member,
            )[k]) == (GroupView { link, members: seq![member] }),
{
    let after = with_member(groups, link, member);
    if has_group(groups, link) {
        let k = choose|k: int| 0 <= k < groups.len() && (#[trigger] groups[k]).link == link;
        assert(after[k].members[groups[k].members.len() as int] == member);
        assert forall|a: int, b: int|
            0 <= a < after.len() && 0 <= b < after.len() && a != b implies (#[trigger] after[a]).link
            != (#[trigger] after[b]).link by {
            assert(after[a].link == groups[a].link);
            assert(after[b].link == groups[b].link);
        }
        assert forall|h: int| 0 <= h < groups.len() && groups[h].link == link implies (
        #[trigger] after[h]).members == groups[h].members.push(member) by {
            assert(h == k);
        }
    } else {
        let k = groups.len() as int;
        assert(after[k].members[0] == member);
        assert forall|a: int, b: int|
            0 <= a < after.len() && 0 <= b < after.len() && a != b implies (#[trigger] after[a]).link
            != (#[trigger] after[b]).link by {
            if a < k {
                assert(after[a] == groups[a]);
            }
            if b < k {
                assert(after[b] == groups[b]);
            }
        }
    }
}

/// Grouping fetches each target once. Whatever the links are, no two groups
/// have the same target; each link is a member of the group of its target,
/// so that links with the same target share one group, however they were
/// written; and a group holds nothing but such links, in the order of the
/// input.
pub proof fn lemma_one_group_per_target(entries: Seq<(Record, Link, Option<String>)>)
    requires
        entries.len() <= usize::MAX,
    ensures
        distinct_targets(grouped(entries)),
        forall|i: int|
            0 <= i < entries.len() ==> is_member(
                grouped(entries),
                (#[trigger] entries[i]).1@,
                member_of(entries, i),
            ),
        members_from(grouped(entries), entries),
    decreases entries.len(),
{
    if entries.len() > 0 {
        let head = entries.drop_last();
        let last = entries.last();
        let n = (entries.len() - 1) as int;
        let before = grouped(head);
        let member = member_of(entries, n);
        let after = grouped(entries);
        lemma_one_group_per_target(head);
        lemma_with_member(before, last.1@, member);
        assert(after == with_member(before, last.1@, member));
        assert forall|i: int| 0 <= i < entries.len() implies is_member(
            after,
            (#[trigger] entries[i]).1@,
            member_of(entries, i),
        ) by {
            if i < n {
                assert(entries[i] == head[i]);
                assert(member_of(entries, i) == member_of(head, i));
                assert(is_member(before, head[i].1@, member_of(head, i)));
                let k = choose|k: int|
                    0 <= k < before.len() && (#[trigger] before[k]).link == head[i].1@
                        && before[k].members.contains(member_of(head, i));
                let j = choose|j: int|
                    0 <= j < before[k].members.len() && before[k].members[j] == member_of(head, i);
                if before[k].link == last.1@ {
                    assert(after[k].members == before[k].members.push(member));
                    assert(after[k].members[j] == member_of(head, i));
                } else {
                    assert(after[k] == before[k]);
                }
                assert(after[k].link == entries[i].1@);
            }
        }
        assert forall|k: int, j: int|
            0 <= k < after.len() && 0 <= j < after[k].members.len() implies {
            let m = #[trigger] after[k].members[j];
            &&& m.0 < entries.len()
            &&& m == member_of(entries, m.0 as int)
            &&& entries[m.0 as int].1@ == after[k].link
            &&& j > 0 ==> after[k].members[j - 1].0 < m.0
        } by {
            let m = after[k].members[j];
            if k < before.len() {
                if before[k].link == last.1@ {
                    assert(after[k].members == before[k].members.push(member));
                    if j < before[k].members.len() {
                        assert(m == before[k].members[j]);
                        assert(entries[m.0 as int] == head[m.0 as int]);
                    } else {
                        if j > 0 {
                            let prev = before[k].members[j - 1];
                            assert(prev.0 < head.len());
                        }
                    }
                } else {
                    assert(after[k] == before[k]);
                    assert(m == before[k].members[j]);
                    assert(entries[m.0 as int] == head[m.0 as int]);
                }
                assert(after[k].link == before[k].link);
            } else {
                assert(after[k] == (GroupView { link: last.1@, members: seq![member] }));
            }
        }
    }
}


} // verus!

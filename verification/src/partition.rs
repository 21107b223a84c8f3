//! The split of the changed packages by versioning policy, and the groups that
//! are versioned together.

use crate::semantic_version::{
    highest_index, max_version, precedence, version_views, SemVer, VersionView,
};
use crate::workspace::{changed_views, ChangedPackage, ChangedView};
use vstd::prelude::*;

verus! {

/// The test of being versioned on its own.
pub open spec fn is_independent() -> spec_fn(ChangedView) -> bool {
    |c: ChangedView| c.independent
}

/// The test of sharing the synchronized version.
pub open spec fn is_synchronized() -> spec_fn(ChangedView) -> bool {
    |c: ChangedView| !c.independent
}

/// The changed packages that are versioned on their own, in their order.
pub open spec fn independent_of(changed: Seq<ChangedView>) -> Seq<ChangedView> {
    changed.filter(is_independent())
}

/// The changed packages that share the synchronized version, in their order.
pub open spec fn synchronized_of(changed: Seq<ChangedView>) -> Seq<ChangedView> {
    changed.filter(is_synchronized())
}

/// Splits the changed packages into those versioned on their own, which come
/// first in the result, and those that share the synchronized version. Each
/// part keeps the order of `changed`.
pub fn partition(changed: &Vec<ChangedPackage>) -> (parts: (
    Vec<ChangedPackage>,
    Vec<ChangedPackage>,
))
    ensures
        changed_views(parts.0@) == independent_of(changed_views(changed@)),
        changed_views(parts.1@) == synchronized_of(changed_views(changed@)),
        parts.0.len() + parts.1.len() == changed.len(),
{
    let ghost all = changed_views(changed@);
    let mut independent: Vec<ChangedPackage> = Vec::new();
    let mut synchronized: Vec<ChangedPackage> = Vec::new();
    let mut i: usize = 0;
    proof {
        reveal(Seq::filter);
        assert(all.take(0) =~= Seq::<ChangedView>::empty());
        assert(changed_views(independent@) =~= independent_of(all.take(0)));
        assert(changed_views(synchronized@) =~= synchronized_of(all.take(0)));
    }
    while i < changed.len()
        invariant
            i <= changed.len(),
            all == changed_views(changed@),
            changed_views(independent@) == independent_of(all.take(i as int)),
            changed_views(synchronized@) == synchronized_of(all.take(i as int)),
            independent.len() + synchronized.len() == i,
        decreases changed.len() - i,
    {
        let ghost one = independent@;
        let ghost other = synchronized@;
        let item = changed[i].duplicate();
        proof {
            assert(all.take(i + 1) =~= all.take(i as int).push(all[i as int]));
            all.take(i as int).lemma_filter_push(all[i as int], is_independent());
            all.take(i as int).lemma_filter_push(all[i as int], is_synchronized());
        }
        if item.independent {
            independent.push(item);
            assert(changed_views(independent@) =~= changed_views(one).push(all[i as int]));
        } else {
            synchronized.push(item);
            assert(changed_views(synchronized@) =~= changed_views(other).push(all[i as int]));
        }
        i += 1;
    }
    assert(all.take(i as int) =~= all);
    (independent, synchronized)
}

/// Every changed package lands in exactly one of the two parts, and the parts
/// together are as long as the whole.
pub proof fn lemma_partition_is_total(changed: Seq<ChangedView>)
    ensures
        independent_of(changed).len() + synchronized_of(changed).len() == changed.len(),
        forall|k: int|
            0 <= k < changed.len() ==> (independent_of(changed).contains(#[trigger] changed[k])
                <==> !synchronized_of(changed).contains(changed[k])),
        forall|c: ChangedView|
            independent_of(changed).contains(c) || synchronized_of(changed).contains(c)
                ==> changed.contains(c),
    decreases changed.len(),
{
    broadcast use vstd::seq_lib::group_filter_ensures;
    broadcast use Seq::lemma_filter_contains_rev;

    let one = independent_of(changed);
    let other = synchronized_of(changed);
    if changed.len() > 0 {
        let rest = changed.drop_last();
        lemma_partition_is_total(rest);
        assert(changed =~= rest.push(changed.last()));
        rest.lemma_filter_push(changed.last(), is_independent());
        rest.lemma_filter_push(changed.last(), is_synchronized());
    } else {
        reveal(Seq::filter);
    }
    assert forall|k: int| 0 <= k < changed.len() implies (one.contains(#[trigger] changed[k])
        <==> !other.contains(changed[k])) by {
        let c = changed[k];
        if c.independent {
            changed.lemma_filter_contains(is_independent(), k);
            if other.contains(c) {
                let at = choose|at: int| 0 <= at < other.len() && other[at] == c;
                changed.lemma_filter_pred(is_synchronized(), at);
            }
        } else {
            changed.lemma_filter_contains(is_synchronized(), k);
            if one.contains(c) {
                let at = choose|at: int| 0 <= at < one.len() && one[at] == c;
                changed.lemma_filter_pred(is_independent(), at);
            }
        }
    }
}

/// Packages that get their next version together.
#[derive(Debug)]
pub enum VersionGroup {
    /// One package that is versioned on its own.
    Independent(ChangedPackage),
    /// The packages that share the synchronized version; never empty.
    Synchronized(Vec<ChangedPackage>),
}

/// What a version group stands for.
pub enum GroupView {
    Independent(ChangedView),
    Synchronized(Seq<ChangedView>),
}

impl View for VersionGroup {
    type V = GroupView;

    open spec fn view(&self) -> GroupView {
        match self {
            VersionGroup::Independent(package) => GroupView::Independent(package@),
            VersionGroup::Synchronized(members) => GroupView::Synchronized(changed_views(members@)),
        }
    }
}

impl GroupView {
    /// A synchronized group has a member.
    pub open spec fn well_formed(self) -> bool {
        self matches GroupView::Synchronized(members) ==> members.len() > 0
    }

    /// The packages of the group, in their order.
    pub open spec fn members(self) -> Seq<ChangedView> {
        match self {
            GroupView::Independent(package) => seq![package],
            GroupView::Synchronized(members) => members,
        }
    }

    /// The version that the group's next version is derived from: the
    /// package's own, or the highest among the members of a synchronized group.
    pub open spec fn basis(self) -> VersionView {
        match self {
            GroupView::Independent(package) => package.version,
            GroupView::Synchronized(members) => {
                let versions = members.map_values(|c: ChangedView| c.version);
                versions[highest_index(versions)]
            },
        }
    }

    /// The name that tells the package apart when its version is asked for;
    /// a synchronized group has none.
    pub open spec fn label(self) -> Option<Seq<char>> {
        match self {
            GroupView::Independent(package) => Some(package.name),
            GroupView::Synchronized(_) => None,
        }
    }
}

/// What a list of version groups stands for.
pub open spec fn group_views(groups: Seq<VersionGroup>) -> Seq<GroupView> {
    groups.map_values(|g: VersionGroup| g@)
}

/// From a package to the group of its own.
pub open spec fn alone() -> spec_fn(ChangedView) -> GroupView {
    |c: ChangedView| GroupView::Independent(c)
}

/// The groups of a partition: the synchronized packages as one group if there
/// are any, then each independent package as a group of its own.
pub open spec fn groups_of(
    independent: Seq<ChangedView>,
    synchronized: Seq<ChangedView>,
) -> Seq<GroupView> {
    let shared = if synchronized.len() > 0 {
        seq![GroupView::Synchronized(synchronized)]
    } else {
        Seq::empty()
    };
    shared + independent.map_values(alone())
}

/// The packages of all the groups, in the order of the groups.
pub open spec fn all_members(groups: Seq<GroupView>) -> Seq<ChangedView>
    decreases groups.len(),
{
    if groups.len() == 0 {
        Seq::empty()
    } else {
        all_members(groups.drop_last()) + groups.last().members()
    }
}

/// The groups of a partition hold every package of it once: the synchronized
/// packages and then the independent ones, in their order. No group is empty,
/// and only the first can be a synchronized group.
pub proof fn lemma_groups_hold_each_once(
    independent: Seq<ChangedView>,
    synchronized: Seq<ChangedView>,
)
    ensures
        all_members(groups_of(independent, synchronized)) == synchronized + independent,
        forall|k: int|
            0 <= k < groups_of(independent, synchronized).len() ==> (#[trigger] groups_of(
                independent,
                synchronized,
            )[k]).well_formed(),
        forall|k: int|
            0 < k < groups_of(independent, synchronized).len() ==> (#[trigger] groups_of(
                independent,
                synchronized,
            )[k]) is Independent,
    decreases independent.len(),
{
    let groups = groups_of(independent, synchronized);
    if independent.len() == 0 {
        if synchronized.len() > 0 {
            assert(groups =~= seq![GroupView::Synchronized(synchronized)]);
            assert(groups.drop_last() =~= Seq::<GroupView>::empty());
            assert(all_members(groups.drop_last()) =~= Seq::<ChangedView>::empty());
            assert(groups.last().members() == synchronized);
            assert(all_members(groups) =~= synchronized + independent);
        } else {
            assert(groups =~= Seq::<GroupView>::empty());
            assert(all_members(groups) =~= synchronized + independent);
        }
    } else {
        let rest = independent.drop_last();
        lemma_groups_hold_each_once(rest, synchronized);
        assert(groups.drop_last() =~= groups_of(rest, synchronized));
        assert(groups.last() == GroupView::Independent(independent.last()));
        assert(all_members(groups) =~= synchronized + independent);
        assert forall|k: int| 0 <= k < groups.len() implies (#[trigger] groups[k]).well_formed()
            && (k > 0 ==> groups[k] is Independent) by {
            if k < groups.len() - 1 {
                assert(groups[k] == groups_of(rest, synchronized)[k]);
            }
        }
    }
}

impl VersionGroup {
    /// The version that the group's next version is derived from: the version
    /// of a member, and no member has a version above it.
    pub fn basis(&self) -> (version: SemVer)
        requires
            self@.well_formed(),
        ensures
            version@ == self@.basis(),
            exists|k: int|
                0 <= k < self@.members().len() && (#[trigger] self@.members()[k]).version
                    == version@,
            forall|k: int|
                0 <= k < self@.members().len() ==> !(precedence(
                    (#[trigger] self@.members()[k]).version,
                    version@,
                ) is Higher),
    {
        match self {
            VersionGroup::Independent(package) => {
                let version = package.version.duplicate();
                assert(self@.members()[0].version == version@);
                version
            },
            VersionGroup::Synchronized(members) => {
                let ghost wanted = changed_views(members@).map_values(|c: ChangedView| c.version);
                let mut versions: Vec<SemVer> = Vec::new();
                let mut i: usize = 0;
                while i < members.len()
                    invariant
                        i <= members.len(),
                        versions.len() == i,
                        forall|k: int| 0 <= k < i ==> versions@[k]@ == members@[k].version@,
                    decreases members.len() - i,
                {
                    versions.push(members[i].version.duplicate());
                    i += 1;
                }
                assert(version_views(versions@) =~= wanted);
                let best = max_version(&versions);
                assert(self@.members()[best as int].version == versions@[best as int]@);
                assert forall|k: int| 0 <= k < self@.members().len() implies !(precedence(
                    (#[trigger] self@.members()[k]).version,
                    versions@[best as int]@,
                ) is Higher) by {
                    assert(self@.members()[k].version == versions@[k]@);
                }
                versions[best].duplicate()
            },
        }
    }

    /// The name to ask under, for a package that is versioned on its own.
    pub fn label(&self) -> (name: Option<String>)
        ensures
            name is Some <==> self@.label() is Some,
            name is Some ==> name->0@ == self@.label()->0,
    {
        match self {
            VersionGroup::Independent(package) => Some(package.name.clone()),
            VersionGroup::Synchronized(_) => None,
        }
    }
}

/// Forms the groups of a partition: the synchronized packages as one group if
/// there are any, then each independent package as a group of its own.
pub fn form_groups(independent: &Vec<ChangedPackage>, synchronized: &Vec<ChangedPackage>) -> (groups:
    Vec<VersionGroup>)
    ensures
        group_views(groups@) == groups_of(
            changed_views(independent@),
            changed_views(synchronized@),
        ),
        forall|k: int| 0 <= k < groups.len() ==> (#[trigger] groups@[k])@.well_formed(),
{
    let mut groups: Vec<VersionGroup> = Vec::new();
    if synchronized.len() > 0 {
        let mut members: Vec<ChangedPackage> = Vec::new();
        let mut i: usize = 0;
        while i < synchronized.len()
            invariant
                i <= synchronized.len(),
                members.len() == i,
                forall|k: int| 0 <= k < i ==> members@[k]@ == synchronized@[k]@,
            decreases synchronized.len() - i,
        {
            members.push(synchronized[i].duplicate());
            i += 1;
        }
        assert(changed_views(members@) =~= changed_views(synchronized@));
        groups.push(VersionGroup::Synchronized(members));
    }
    let ghost shared = group_views(groups@);
    let mut i: usize = 0;
    assert(group_views(groups@) =~= shared + changed_views(independent@).take(0).map_values(
        alone(),
    ));
    while i < independent.len()
        invariant
            i <= independent.len(),
            group_views(groups@) == shared + changed_views(independent@).take(i as int).map_values(
                alone(),
            ),
            forall|k: int| 0 <= k < groups.len() ==> (#[trigger] groups@[k])@.well_formed(),
        decreases independent.len() - i,
    {
        let ghost before = groups@;
        groups.push(VersionGroup::Independent(independent[i].duplicate()));
        proof {
            let views = changed_views(independent@);
            assert(views.take(i + 1) =~= views.take(i as int).push(views[i as int]));
            assert(group_views(groups@) =~= group_views(before).push(
                GroupView::Independent(views[i as int]),
            ));
            assert(group_views(groups@) =~= shared + views.take(i + 1).map_values(alone()));
        }
        i += 1;
    }
    proof {
        let views = changed_views(independent@);
        assert(views.take(i as int) =~= views);
        assert(shared =~= if synchronized.len() > 0 {
            seq![GroupView::Synchronized(changed_views(synchronized@))]
        } else {
            Seq::empty()
        });
    }
    groups
}

} // verus!

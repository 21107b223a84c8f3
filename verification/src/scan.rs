//! The change-set scan: from the packages whose files changed to every package
//! that the change reaches through the dependency graph.

use crate::workspace::{
    changed_views, contains_id, listing_view, texts, workspace_view, ChangeReason, ChangedPackage,
    ChangedView, FileChanges, FileChangesView, PackageView, WorkspacePackage,
};
use vstd::prelude::*;

verus! {

/// The test of having files that differ.
pub open spec fn has_changes() -> spec_fn(FileChangesView) -> bool {
    |l: FileChangesView| l.files.len() > 0
}

/// From a listing to the identity of its package.
pub open spec fn package_of() -> spec_fn(FileChangesView) -> Seq<char> {
    |l: FileChangesView| l.package
}

/// The identities of the packages that changed directly: those for which
/// the listing holds a file that differs.
pub open spec fn direct_of(listing: Seq<FileChangesView>) -> Seq<Seq<char>> {
    listing.filter(has_changes()).map_values(package_of())
}

/// A package is named as directly changed exactly where the listing holds an
/// entry for it with a file that differs.
pub proof fn lemma_direct_of(listing: Seq<FileChangesView>, id: Seq<char>)
    ensures
        direct_of(listing).contains(id) <==> exists|k: int|
            0 <= k < listing.len() && (#[trigger] listing[k]).package == id && listing[k].files.len()
                > 0,
{
    broadcast use vstd::seq_lib::group_filter_ensures;
    broadcast use Seq::lemma_filter_contains_rev;

    let kept = listing.filter(has_changes());
    let direct = direct_of(listing);
    if direct.contains(id) {
        let at = choose|at: int| 0 <= at < direct.len() && direct[at] == id;
        assert(kept[at].package == id);
        listing.lemma_filter_pred(has_changes(), at);
        assert(kept.contains(kept[at]));
        assert(listing.contains(kept[at]));
        let k = choose|k: int| 0 <= k < listing.len() && listing[k] == kept[at];
        assert(listing[k].package == id && listing[k].files.len() > 0);
    }
    if exists|k: int|
        0 <= k < listing.len() && (#[trigger] listing[k]).package == id && listing[k].files.len()
            > 0 {
        let k = choose|k: int|
            0 <= k < listing.len() && (#[trigger] listing[k]).package == id
                && listing[k].files.len() > 0;
        listing.lemma_filter_contains(has_changes(), k);
        let at = choose|at: int| 0 <= at < kept.len() && kept[at] == listing[k];
        assert(direct[at] == id);
    }
}

/// Names the packages that changed directly: those for which the listing holds
/// a file that differs, in the order of the listing.
pub fn directly_changed(listing: &Vec<FileChanges>) -> (direct: Vec<String>)
    ensures
        texts(direct@) == direct_of(listing_view(listing@)),
{
    let ghost all = listing_view(listing@);
    let mut direct: Vec<String> = Vec::new();
    let mut i: usize = 0;
    proof {
        reveal(Seq::filter);
        assert(all.take(0) =~= Seq::<FileChangesView>::empty());
        assert(texts(direct@) =~= direct_of(all.take(0)));
    }
    while i < listing.len()
        invariant
            i <= listing.len(),
            all == listing_view(listing@),
            texts(direct@) == direct_of(all.take(i as int)),
        decreases listing.len() - i,
    {
        let ghost before = direct@;
        proof {
            assert(all.take(i + 1) =~= all.take(i as int).push(all[i as int]));
            all.take(i as int).lemma_filter_push(all[i as int], has_changes());
        }
        if listing[i].files.len() > 0 {
            direct.push(listing[i].package.clone());
            assert(texts(direct@) =~= texts(before).push(all[i as int].package));
            assert(direct_of(all.take(i + 1)) =~= direct_of(all.take(i as int)).push(
                all[i as int].package,
            ));
        }
        i += 1;
    }
    assert(all.take(i as int) =~= all);
    direct
}

/// Package `i` of the workspace `g` depends on package `j`.
pub open spec fn depends_on(g: Seq<PackageView>, i: int, j: int) -> bool {
    0 <= i < g.len() && 0 <= j < g.len() && g[i].dependencies.contains(g[j].id)
}

/// Package `i` is among the directly changed packages, which `direct` names by
/// their identities.
pub open spec fn is_seed(g: Seq<PackageView>, direct: Seq<Seq<char>>, i: int) -> bool {
    0 <= i < g.len() && direct.contains(g[i].id)
}

/// Package `i` changed directly, or depends over at most `hops` steps on one
/// that did.
pub open spec fn changed_within(
    g: Seq<PackageView>,
    direct: Seq<Seq<char>>,
    i: int,
    hops: nat,
) -> bool
    decreases hops,
{
    is_seed(g, direct, i) || (hops > 0 && exists|j: int| #[trigger]
        depends_on(g, i, j) && changed_within(g, direct, j, (hops - 1) as nat))
}

/// Package `i` is changed: directly, or because a package that it depends on,
/// in one step or in several, changed directly.
pub open spec fn changed(g: Seq<PackageView>, direct: Seq<Seq<char>>, i: int) -> bool {
    exists|hops: nat| changed_within(g, direct, i, hops)
}

/// Package `i` belongs to the result of a scan: it is changed, and private
/// packages are asked for or it is not private.
pub open spec fn reported(
    g: Seq<PackageView>,
    direct: Seq<Seq<char>>,
    include_private: bool,
    i: int,
) -> bool {
    changed(g, direct, i) && (include_private || !g[i].private)
}

/// What a scan says of the changed package `i`.
pub open spec fn changed_entry(g: Seq<PackageView>, direct: Seq<Seq<char>>, i: int) -> ChangedView {
    ChangedView {
        index: i,
        name: g[i].name,
        version: g[i].version,
        independent: g[i].independent,
        reason: if is_seed(g, direct, i) {
            ChangeReason::Direct
        } else {
            ChangeReason::Propagated
        },
    }
}

/// The positions of a snapshot of `n` packages, in order.
pub open spec fn positions(n: nat) -> Seq<int> {
    Seq::new(n, |i: int| i)
}

/// The test of belonging to the result of a scan.
pub open spec fn is_reported(
    g: Seq<PackageView>,
    direct: Seq<Seq<char>>,
    include_private: bool,
) -> spec_fn(int) -> bool {
    |i: int| reported(g, direct, include_private, i)
}

/// From a position to what a scan says of the package there.
pub open spec fn entry_at(g: Seq<PackageView>, direct: Seq<Seq<char>>) -> spec_fn(int) -> ChangedView {
    |i: int| changed_entry(g, direct, i)
}

/// The result of a scan: an entry for each package that belongs to it, in the
/// order of the snapshot.
pub open spec fn changed_packages(
    g: Seq<PackageView>,
    direct: Seq<Seq<char>>,
    include_private: bool,
) -> Seq<ChangedView> {
    positions(g.len()).filter(is_reported(g, direct, include_private)).map_values(
        entry_at(g, direct),
    )
}

/// `found` is the result of a scan: one entry for each package that belongs to
/// it and for no other, in the order of the snapshot.
pub open spec fn is_scan_of(
    found: Seq<ChangedView>,
    g: Seq<PackageView>,
    direct: Seq<Seq<char>>,
    include_private: bool,
) -> bool {
    &&& forall|k: int|
        0 <= k < found.len() ==> {
            &&& 0 <= (#[trigger] found[k]).index < g.len()
            &&& reported(g, direct, include_private, found[k].index)
            &&& found[k] == changed_entry(g, direct, found[k].index)
        }
    &&& forall|k: int, l: int|
        0 <= k < l < found.len() ==> (#[trigger] found[k]).index < (#[trigger] found[l]).index
    &&& forall|i: int|
        0 <= i < g.len() && #[trigger] reported(g, direct, include_private, i) ==> exists|k: int|
            0 <= k < found.len() && (#[trigger] found[k]).index == i
}

proof fn lemma_kept_positions(n: nat, m: nat, keep: spec_fn(int) -> bool)
    requires
        m <= n,
    ensures
        forall|k: int|
            0 <= k < positions(n).take(m as int).filter(keep).len() ==> 0 <= (
            #[trigger] positions(n).take(m as int).filter(keep)[k]) < m && keep(
                positions(n).take(m as int).filter(keep)[k],
            ),
        forall|k: int, l: int|
            0 <= k < l < positions(n).take(m as int).filter(keep).len() ==> (
            #[trigger] positions(n).take(m as int).filter(keep)[k]) < (
            #[trigger] positions(n).take(m as int).filter(keep)[l]),
        forall|i: int|
            0 <= i < m && #[trigger] keep(i) ==> positions(n).take(m as int).filter(keep).contains(
                i,
            ),
    decreases m,
{
    let all = positions(n);
    let kept = all.take(m as int).filter(keep);
    if m == 0 {
        reveal(Seq::filter);
        assert(all.take(0) =~= Seq::<int>::empty());
    } else {
        let before = all.take(m - 1).filter(keep);
        lemma_kept_positions(n, (m - 1) as nat, keep);
        assert(all.take(m as int) =~= all.take(m - 1).push(m - 1));
        all.take(m - 1).lemma_filter_push(m - 1, keep);
        assert forall|i: int| 0 <= i < m && #[trigger] keep(i) implies kept.contains(i) by {
            if i < m - 1 {
                let at = choose|at: int| 0 <= at < before.len() && before[at] == i;
                assert(kept[at] == i);
            } else {
                assert(kept[kept.len() - 1] == i);
            }
        }
    }
}

/// The result of a scan holds one entry for each package that belongs to it and
/// for no other, in the order of the snapshot.
pub proof fn lemma_changed_packages(
    g: Seq<PackageView>,
    direct: Seq<Seq<char>>,
    include_private: bool,
)
    ensures
        is_scan_of(changed_packages(g, direct, include_private), g, direct, include_private),
{
    let keep = is_reported(g, direct, include_private);
    let kept = positions(g.len()).filter(keep);
    let found = changed_packages(g, direct, include_private);
    lemma_kept_positions(g.len(), g.len(), keep);
    assert(positions(g.len()).take(g.len() as int) =~= positions(g.len()));
    assert forall|k: int| 0 <= k < found.len() implies 0 <= (#[trigger] found[k]).index < g.len()
        && reported(g, direct, include_private, found[k].index) && found[k] == changed_entry(
        g,
        direct,
        found[k].index,
    ) by {
        assert(keep(kept[k]));
    }
    assert forall|k: int, l: int| 0 <= k < l < found.len() implies (#[trigger] found[k]).index < (
    #[trigger] found[l]).index by {
        assert(kept[k] < kept[l]);
    }
    assert forall|i: int|
        0 <= i < g.len() && #[trigger] reported(g, direct, include_private, i) implies exists|
        k: int,
    | 0 <= k < found.len() && (#[trigger] found[k]).index == i by {
        assert(keep(i));
        let at = choose|at: int| 0 <= at < kept.len() && kept[at] == i;
        assert(found[at].index == i);
    }
}

/// A set of packages that holds, with a package, every package that depends on it.
pub open spec fn closed_under_dependents(g: Seq<PackageView>, s: Set<int>) -> bool {
    forall|i: int, j: int| #[trigger] depends_on(g, i, j) && s.contains(j) ==> s.contains(i)
}

/// The changed packages are the directly changed ones and those that depend on
/// a changed package: each directly changed package is changed, each package
/// that depends on a changed one is changed, and each changed package is one or
/// the other.
pub proof fn lemma_closure(g: Seq<PackageView>, direct: Seq<Seq<char>>)
    ensures
        forall|i: int| is_seed(g, direct, i) ==> changed(g, direct, i),
        forall|i: int, j: int| #[trigger]
            depends_on(g, i, j) && changed(g, direct, j) ==> changed(g, direct, i),
        forall|i: int| #[trigger]
            changed(g, direct, i) ==> is_seed(g, direct, i) || exists|j: int| #[trigger]
                depends_on(g, i, j) && changed(g, direct, j),
{
    assert forall|i: int| is_seed(g, direct, i) implies changed(g, direct, i) by {
        assert(changed_within(g, direct, i, 0));
    }
    assert forall|i: int, j: int| #[trigger]
        depends_on(g, i, j) && changed(g, direct, j) implies changed(g, direct, i) by {
        let hops = choose|hops: nat| changed_within(g, direct, j, hops);
        assert(changed_within(g, direct, i, hops + 1));
    }
    assert forall|i: int| #[trigger] changed(g, direct, i) implies is_seed(g, direct, i)
        || exists|j: int| #[trigger] depends_on(g, i, j) && changed(g, direct, j) by {
        let hops = choose|hops: nat| changed_within(g, direct, i, hops);
        if !is_seed(g, direct, i) {
            let j = choose|j: int| #[trigger]
                depends_on(g, i, j) && changed_within(g, direct, j, (hops - 1) as nat);
            assert(changed(g, direct, j));
        }
    }
}

/// The changed packages are the least such set: any set that holds the
/// directly changed packages and, with a package, those that depend on it, holds
/// every changed package.
pub proof fn lemma_closure_is_least(g: Seq<PackageView>, direct: Seq<Seq<char>>, s: Set<int>)
    requires
        forall|i: int| is_seed(g, direct, i) ==> s.contains(i),
        closed_under_dependents(g, s),
    ensures
        forall|i: int| changed(g, direct, i) ==> s.contains(i),
{
    assert forall|i: int| changed(g, direct, i) implies s.contains(i) by {
        let hops = choose|hops: nat| changed_within(g, direct, i, hops);
        lemma_reached_is_held(g, direct, s, i, hops);
    }
}

proof fn lemma_reached_is_held(
    g: Seq<PackageView>,
    direct: Seq<Seq<char>>,
    s: Set<int>,
    i: int,
    hops: nat,
)
    requires
        forall|i: int| is_seed(g, direct, i) ==> s.contains(i),
        closed_under_dependents(g, s),
        changed_within(g, direct, i, hops),
    ensures
        s.contains(i),
    decreases hops,
{
    if !is_seed(g, direct, i) {
        let j = choose|j: int| #[trigger]
            depends_on(g, i, j) && changed_within(g, direct, j, (hops - 1) as nat);
        lemma_reached_is_held(g, direct, s, j, (hops - 1) as nat);
    }
}

/// The number of marks that are set.
spec fn count_marked(marks: Seq<bool>) -> nat
    decreases marks.len(),
{
    if marks.len() == 0 {
        0
    } else {
        count_marked(marks.drop_last()) + if marks.last() {
            1nat
        } else {
            0nat
        }
    }
}

proof fn lemma_count_bound(marks: Seq<bool>)
    ensures
        count_marked(marks) <= marks.len(),
    decreases marks.len(),
{
    if marks.len() > 0 {
        lemma_count_bound(marks.drop_last());
    }
}

proof fn lemma_count_grows(marks: Seq<bool>, i: int)
    requires
        0 <= i < marks.len(),
        !marks[i],
    ensures
        count_marked(marks.update(i, true)) == count_marked(marks) + 1,
    decreases marks.len(),
{
    let after = marks.update(i, true);
    if i == marks.len() - 1 {
        assert(after.drop_last() =~= marks.drop_last());
    } else {
        assert(after.drop_last() =~= marks.drop_last().update(i, true));
        lemma_count_grows(marks.drop_last(), i);
    }
}

/// The set of the packages that are marked.
spec fn marked_set(marks: Seq<bool>) -> Set<int> {
    Set::new(|i: int| 0 <= i < marks.len() && marks[i])
}

/// Whether package `i` depends on a marked package.
fn depends_on_marked(packages: &Vec<WorkspacePackage>, marks: &Vec<bool>, i: usize) -> (found: bool)
    requires
        i < packages.len(),
        marks.len() == packages.len(),
    ensures
        found == exists|j: int| #[trigger]
            depends_on(workspace_view(packages@), i as int, j) && marks@[j],
{
    let ghost g = workspace_view(packages@);
    let mut j: usize = 0;
    while j < packages.len()
        invariant
            j <= packages.len(),
            i < packages.len(),
            marks.len() == packages.len(),
            g == workspace_view(packages@),
            forall|k: int| 0 <= k < j ==> !(#[trigger] depends_on(g, i as int, k) && marks@[k]),
        decreases packages.len() - j,
    {
        if marks[j] && contains_id(&packages[i].dependencies, &packages[j].id) {
            assert(depends_on(g, i as int, j as int));
            return true;
        }
        j += 1;
    }
    false
}

/// The packages that changed since the boundary.
///
/// `direct` names the packages whose files differ. A package is changed if it
/// is one of them or depends, in one step or in several, on one of them. Private
/// packages hand a change on like any other, but are left out of the result
/// unless `include_private` is set. The result lists the packages in the order
/// of the snapshot.
#[verifier::rlimit(50)]
pub fn scan(packages: &Vec<WorkspacePackage>, direct: &Vec<String>, include_private: bool) -> (found:
    Vec<ChangedPackage>)
    ensures
        changed_views(found@) == changed_packages(
            workspace_view(packages@),
            texts(direct@),
            include_private,
        ),
        is_scan_of(
            changed_views(found@),
            workspace_view(packages@),
            texts(direct@),
            include_private,
        ),
{
    let ghost g = workspace_view(packages@);
    let ghost d = texts(direct@);
    let n = packages.len();
    let mut seeds: Vec<bool> = Vec::new();
    let mut i: usize = 0;
    while i < n
        invariant
            i <= n,
            n == packages.len(),
            g == workspace_view(packages@),
            d == texts(direct@),
            seeds.len() == i,
            forall|k: int| 0 <= k < i ==> seeds@[k] == is_seed(g, d, k),
        decreases n - i,
    {
        seeds.push(contains_id(direct, &packages[i].id));
        i += 1;
    }
    let mut marks: Vec<bool> = seeds.clone();
    assert(marks@ =~= seeds@);
    proof {
        lemma_closure(g, d);
    }
    let mut grew = true;
    while grew
        invariant
            n == packages.len(),
            g == workspace_view(packages@),
            d == texts(direct@),
            marks.len() == n,
            seeds.len() == n,
            forall|k: int| 0 <= k < n ==> seeds@[k] == is_seed(g, d, k),
            forall|k: int| 0 <= k < n && seeds@[k] ==> marks@[k],
            forall|k: int| 0 <= k < n && marks@[k] ==> changed(g, d, k),
            !grew ==> forall|k: int, j: int| #[trigger]
                depends_on(g, k, j) && marks@[j] ==> marks@[k],
        decreases n - count_marked(marks@) + (if grew {
            1int
        } else {
            0int
        }),
    {
        let ghost at_start = marks@;
        proof {
            lemma_count_bound(marks@);
        }
        grew = false;
        let mut k: usize = 0;
        while k < n
            invariant
                k <= n,
                n == packages.len(),
                g == workspace_view(packages@),
                d == texts(direct@),
                marks.len() == n,
                seeds.len() == n,
                forall|k: int| 0 <= k < n && seeds@[k] ==> marks@[k],
                forall|k: int| 0 <= k < n && marks@[k] ==> changed(g, d, k),
                !grew ==> marks@ == at_start,
                grew ==> count_marked(marks@) > count_marked(at_start),
                count_marked(marks@) <= n,
                !grew ==> forall|a: int, j: int|
                    0 <= a < k && #[trigger] depends_on(g, a, j) && marks@[j] ==> marks@[a],
            decreases n - k,
        {
            if !marks[k] && depends_on_marked(packages, &marks, k) {
                proof {
                    lemma_closure(g, d);
                    lemma_count_grows(marks@, k as int);
                    lemma_count_bound(marks@.update(k as int, true));
                }
                marks.set(k, true);
                grew = true;
            }
            k += 1;
        }
    }
    proof {
        let held = marked_set(marks@);
        lemma_closure_is_least(g, d, held);
        assert forall|k: int| 0 <= k < n implies marks@[k] == changed(g, d, k) by {
            if changed(g, d, k) {
                assert(held.contains(k));
            }
        }
    }
    let ghost keep = is_reported(g, d, include_private);
    let ghost entry = entry_at(g, d);
    let ghost all = positions(n as nat);
    let mut found: Vec<ChangedPackage> = Vec::new();
    let mut i: usize = 0;
    proof {
        reveal(Seq::filter);
        assert(all.take(0) =~= Seq::<int>::empty());
        assert(changed_views(found@) =~= all.take(0).filter(keep).map_values(entry));
    }
    while i < n
        invariant
            i <= n,
            n == packages.len(),
            g == workspace_view(packages@),
            d == texts(direct@),
            keep == is_reported(g, d, include_private),
            entry == entry_at(g, d),
            all == positions(n as nat),
            changed_views(found@) == all.take(i as int).filter(keep).map_values(entry),
            marks.len() == n,
            seeds.len() == n,
            forall|k: int| 0 <= k < n ==> seeds@[k] == is_seed(g, d, k),
            forall|k: int| 0 <= k < n ==> marks@[k] == changed(g, d, k),
        decreases n - i,
    {
        let package = &packages[i];
        proof {
            assert(all.take(i + 1) =~= all.take(i as int).push(i as int));
            all.take(i as int).lemma_filter_push(i as int, keep);
        }
        if marks[i] && (include_private || !package.private) {
            let ghost before = found@;
            let item = ChangedPackage {
                index: i,
                name: package.name.clone(),
                version: package.version.duplicate(),
                independent: package.independent,
                reason: if seeds[i] {
                    ChangeReason::Direct
                } else {
                    ChangeReason::Propagated
                },
            };
            found.push(item);
            proof {
                assert(changed_views(found@) =~= changed_views(before).push(
                    changed_entry(g, d, i as int),
                ));
                assert(all.take(i + 1).filter(keep).map_values(entry) =~= all.take(
                    i as int,
                ).filter(keep).map_values(entry).push(entry(i as int)));
            }
        }
        i += 1;
    }
    proof {
        assert(all.take(n as int) =~= all);
        lemma_changed_packages(g, d, include_private);
    }
    found
}

} // verus!

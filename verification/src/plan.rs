//! What to install, and in which order.
use vstd::prelude::*;

use crate::cli;
use crate::database;
use crate::database::Database;
use crate::error::LkpmError;
use crate::manager;
use crate::pkg_utils;
use crate::pkg_utils::PackageMetadata;
use crate::repo;
use crate::repo::PackageLocation;
use crate::repo::RepoIndex;
use crate::text;

verus! {

// ---------------------------------------------------------------------------
// Targets

/// A package that is to be installed.
#[derive(Clone)]
pub struct InstallTarget {
    pub requested_name: Option<String>,
    pub source: String,
    pub location: PackageLocation,
    pub metadata: Option<PackageMetadata>,
}

/// A package that is to be installed, with its texts taken as sequences of characters.
pub struct TargetView {
    pub requested_name: Option<Seq<char>>,
    pub source: Seq<char>,
    pub location: Seq<char>,
    pub metadata: Option<pkg_utils::MetadataView>,
}

impl View for InstallTarget {
    type V = TargetView;

    open spec fn view(&self) -> TargetView {
        TargetView {
            requested_name: cli::opt_text(self.requested_name),
            source: self.source@,
            location: self.location@,
            metadata: match self.metadata {
                Some(m) => Some(m@),
                None => None,
            },
        }
    }
}

/// The targets of a list.
pub open spec fn targets(v: Seq<InstallTarget>) -> Seq<TargetView> {
    v.map_values(|t: InstallTarget| t@)
}

impl InstallTarget {
    /// A copy of the target.
    pub fn copy(&self) -> (r: InstallTarget)
        ensures
            r@ == self@,
    {
        InstallTarget {
            requested_name: cli::copy_opt(&self.requested_name),
            source: text::copy(&self.source),
            location: match &self.location {
                PackageLocation::Remote(url) => PackageLocation::Remote(text::copy(url)),
            },
            metadata: match &self.metadata {
                Some(m) => Some(m.copy()),
                None => None,
            },
        }
    }
}

/// A package that is planned to be installed, under the name that it is kept
/// by, and what it depends on.
pub struct PlannedInstall {
    pub name: String,
    pub target: InstallTarget,
    pub depends: Vec<String>,
}

/// A planned package with its texts taken as sequences of characters.
pub struct PlannedView {
    pub name: Seq<char>,
    pub target: TargetView,
    pub depends: Seq<Seq<char>>,
}

impl View for PlannedInstall {
    type V = PlannedView;

    open spec fn view(&self) -> PlannedView {
        PlannedView {
            name: self.name@,
            target: self.target@,
            depends: text::texts(self.depends@),
        }
    }
}

/// The planned packages of a list.
pub open spec fn planned_of(v: Seq<PlannedInstall>) -> Seq<PlannedView> {
    v.map_values(|p: PlannedInstall| p@)
}

/// The names of planned packages.
pub open spec fn names(planned: Seq<PlannedView>) -> Seq<Seq<char>> {
    planned.map_values(|p: PlannedView| p.name)
}

/// The name that a dependency is kept under.
pub open spec fn kept(dep: Seq<char>) -> Seq<char> {
    repo::canonical(pkg_utils::dependency_name(dep))
}

/// The name that a dependency is kept under.
pub fn kept_name(dep: &str) -> (r: String)
    ensures
        r@ == kept(dep@),
{
    manager::canonical_package_name(&pkg_utils::normalize_dependency_name(dep))
}

/// A name that a dependency is kept under is kept under itself.
pub proof fn kept_fixed(dep: Seq<char>)
    ensures
        kept(kept(dep)) == kept(dep),
        pkg_utils::dependency_name(kept(dep)) == kept(dep),
{
    let d = pkg_utils::dependency_name(dep);
    pkg_utils::dependency_name_idempotent(dep);
    reveal_strlit("linux");
    reveal_strlit("bash");
    reveal_strlit("lksystem");
    reveal_strlit("libarchive");
    if repo::canonical(d) != d {
        repo::plain_name_kept(repo::canonical(d));
    }
    repo::canonical_idempotent(d);
}

// ---------------------------------------------------------------------------
// The order of installation

/// The packages that come first whenever they can.
pub open spec fn bootstrap_essentials() -> Seq<Seq<char>> {
    seq![
        "filesystem"@,
        "iana-etc"@,
        "glibc"@,
        "busybox"@,
        "bash"@,
        "coreutils"@,
        "util-linux"@,
        "kmod"@,
    ]
}

/// Whether a package comes first whenever it can.
pub fn is_bootstrap_essential(name: &str) -> (r: bool)
    ensures
        r == bootstrap_essentials().contains(name@),
{
    let list = vec![
        "filesystem".to_owned(),
        "iana-etc".to_owned(),
        "glibc".to_owned(),
        "busybox".to_owned(),
        "bash".to_owned(),
        "coreutils".to_owned(),
        "util-linux".to_owned(),
        "kmod".to_owned(),
    ];
    assert(text::texts(list@) =~= bootstrap_essentials());
    text::list_contains(&list, name)
}

/// Whether a dependency of a package still has to be placed: it is another
/// planned package, and not placed yet.
pub open spec fn waits_for(
    all: Seq<Seq<char>>,
    placed: Seq<Seq<char>>,
    own: Seq<char>,
    dep: Seq<char>,
) -> bool {
    kept(dep) != own && all.contains(kept(dep)) && !placed.contains(kept(dep))
}

/// The number of listed dependencies that still have to be placed.
pub open spec fn waiting(
    all: Seq<Seq<char>>,
    placed: Seq<Seq<char>>,
    own: Seq<char>,
    depends: Seq<Seq<char>>,
) -> nat
    decreases depends.len(),
{
    if depends.len() == 0 {
        0
    } else {
        waiting(all, placed, own, depends.drop_last()) + (if waits_for(
            all,
            placed,
            own,
            depends.last(),
        ) {
            1nat
        } else {
            0nat
        })
    }
}

/// The number of dependencies of a planned package that still have to be placed.
pub open spec fn remaining(planned: Seq<PlannedView>, placed: Seq<Seq<char>>, k: int) -> nat {
    waiting(names(planned), placed, planned[k].name, planned[k].depends)
}

/// Whether a package is placed before another. A package that waits for
/// nothing goes before one that does; of those that wait for nothing, the
/// essential ones go first; of those that wait, those that wait for fewer.
/// Otherwise the name decides.
pub open spec fn goes_before(
    a: Seq<char>,
    a_waits: nat,
    b: Seq<char>,
    b_waits: nat,
) -> bool {
    let a_essential = bootstrap_essentials().contains(a);
    let b_essential = bootstrap_essentials().contains(b);
    if a_waits == 0 && b_waits == 0 && a_essential != b_essential {
        a_essential
    } else if a_waits != b_waits {
        a_waits < b_waits
    } else {
        text::text_less(a, b)
    }
}

/// Whether the `k`th planned package is the next one to be placed.
pub open spec fn is_next(planned: Seq<PlannedView>, placed: Seq<Seq<char>>, k: int) -> bool {
    &&& 0 <= k < planned.len()
    &&& !placed.contains(planned[k].name)
    &&& forall|j: int|
        0 <= j < planned.len() && !placed.contains((#[trigger] planned[j]).name)
            && planned[j].name != planned[k].name ==> goes_before(
            planned[k].name,
            remaining(planned, placed, k),
            planned[j].name,
            remaining(planned, placed, j),
        )
}

/// Whether the planned packages are placed in this order: each is the next
/// one at its turn, until all are placed.
pub open spec fn is_order(planned: Seq<PlannedView>, order: Seq<int>) -> bool {
    &&& order.len() == planned.len()
    &&& forall|i: int|
        0 <= i < order.len() ==> is_next(
            planned,
            placed_after(planned, order, i),
            #[trigger] order[i],
        )
}

/// The names that are placed after the first `i` turns.
pub open spec fn placed_after(planned: Seq<PlannedView>, order: Seq<int>, i: int) -> Seq<Seq<char>> {
    order.take(i).map_values(|k: int| planned[k].name)
}

/// Whether no two planned packages have the same name.
pub open spec fn distinct(planned: Seq<PlannedView>) -> bool {
    forall|i: int, j: int|
        0 <= i < j < planned.len() ==> (#[trigger] planned[i]).name != (#[trigger] planned[j]).name
}

/// The names held by a list of planned packages stand at the same places.
proof fn names_index(planned: Seq<PlannedView>, k: int)
    requires
        0 <= k < planned.len(),
    ensures
        names(planned)[k] == planned[k].name,
        names(planned).contains(planned[k].name),
{
    assert(names(planned)[k] == planned[k].name);
}

/// Of two packages with different names, one goes before the other.
proof fn goes_before_total(a: Seq<char>, a_waits: nat, b: Seq<char>, b_waits: nat)
    requires
        a != b,
    ensures
        goes_before(a, a_waits, b, b_waits) || goes_before(b, b_waits, a, a_waits),
{
    text::text_less_total(a, b);
}

/// No package goes before one that goes before it.
proof fn goes_before_asymmetric(a: Seq<char>, a_waits: nat, b: Seq<char>, b_waits: nat)
    requires
        goes_before(a, a_waits, b, b_waits),
    ensures
        !goes_before(b, b_waits, a, a_waits),
{
    if text::text_less(a, b) {
        text::text_less_asymmetric(a, b);
    }
}

/// What goes before a package that goes before another goes before that other.
proof fn goes_before_transitive(
    a: Seq<char>,
    a_waits: nat,
    b: Seq<char>,
    b_waits: nat,
    c: Seq<char>,
    c_waits: nat,
)
    requires
        goes_before(a, a_waits, b, b_waits),
        goes_before(b, b_waits, c, c_waits),
    ensures
        goes_before(a, a_waits, c, c_waits),
{
    if text::text_less(a, b) && text::text_less(b, c) {
        text::text_less_transitive(a, b, c);
    }
}

/// Whether a package is placed before another.
fn precedes(a: &str, a_waits: usize, b: &str, b_waits: usize) -> (r: bool)
    ensures
        r == goes_before(a@, a_waits as nat, b@, b_waits as nat),
{
    let a_essential = is_bootstrap_essential(a);
    let b_essential = is_bootstrap_essential(b);
    if a_waits == 0 && b_waits == 0 && a_essential != b_essential {
        a_essential
    } else if a_waits != b_waits {
        a_waits < b_waits
    } else {
        text::less(a, b)
    }
}

/// The number of listed dependencies that are a given other package.
pub open spec fn listed(own: Seq<char>, depends: Seq<Seq<char>>, name: Seq<char>) -> nat
    decreases depends.len(),
{
    if depends.len() == 0 {
        0
    } else {
        listed(own, depends.drop_last(), name) + (if kept(depends.last()) == name && name != own {
            1nat
        } else {
            0nat
        })
    }
}

/// Placing a package leaves as many fewer to wait for as list it.
proof fn waiting_after(
    all: Seq<Seq<char>>,
    placed: Seq<Seq<char>>,
    own: Seq<char>,
    depends: Seq<Seq<char>>,
    name: Seq<char>,
)
    requires
        all.contains(name),
        !placed.contains(name),
    ensures
        waiting(all, placed.push(name), own, depends) + listed(own, depends, name) == waiting(
            all,
            placed,
            own,
            depends,
        ),
    decreases depends.len(),
{
    if depends.len() > 0 {
        waiting_after(all, placed, own, depends.drop_last(), name);
        let d = kept(depends.last());
        assert(placed.push(name).contains(d) <==> placed.contains(d) || d == name) by {
            if placed.contains(d) {
                let i = choose|i: int| 0 <= i < placed.len() && placed[i] == d;
                assert(placed.push(name)[i] == d);
            }
            if d == name {
                assert(placed.push(name)[placed.len() as int] == d);
            }
        }
    }
}

fn has_name(planned: &Vec<PlannedInstall>, name: &str) -> (r: bool)
    ensures
        r == names(planned_of(planned@)).contains(name@),
{
    let ghost all = names(planned_of(planned@));
    let mut i: usize = 0;
    while i < planned.len()
        invariant
            i <= planned@.len(),
            all == names(planned_of(planned@)),
            forall|k: int| 0 <= k < i ==> #[trigger] all[k] != name@,
        decreases planned@.len() - i,
    {
        assert(all[i as int] == planned@[i as int]@.name);
        if text::same(&planned[i].name, name) {
            return true;
        }
        i = i + 1;
    }
    assert(!all.contains(name@));
    false
}

/// The number of dependencies of a package that have to be placed before it.
fn count_waiting(planned: &Vec<PlannedInstall>, k: usize) -> (r: usize)
    requires
        k < planned@.len(),
    ensures
        r == remaining(planned_of(planned@), seq![], k as int),
{
    let ghost all = names(planned_of(planned@));
    let ghost deps = text::texts(planned@[k as int].depends@);
    let ghost own = planned@[k as int].name@;
    let mut count: usize = 0;
    let mut i: usize = 0;
    assert(planned_of(planned@)[k as int] == planned@[k as int]@);
    assert(deps.take(0) =~= seq![]);
    while i < planned[k].depends.len()
        invariant
            k < planned@.len(),
            i <= planned@[k as int].depends@.len(),
            count <= i,
            all == names(planned_of(planned@)),
            deps == text::texts(planned@[k as int].depends@),
            own == planned@[k as int].name@,
            count == waiting(all, seq![], own, deps.take(i as int)),
        decreases planned@[k as int].depends@.len() - i,
    {
        assert(deps.take(i + 1).drop_last() =~= deps.take(i as int));
        assert(deps[i as int] == planned@[k as int].depends@[i as int]@);
        let name = kept_name(&planned[k].depends[i]);
        assert(!Seq::<Seq<char>>::empty().contains(name@));
        if !text::same(&name, &planned[k].name) && has_name(planned, &name) {
            count = count + 1;
        }
        i = i + 1;
    }
    assert(deps.take(deps.len() as int) =~= deps);
    count
}

/// The number of listed dependencies that are a given other package.
fn count_listed(own: &str, depends: &Vec<String>, name: &str) -> (r: usize)
    ensures
        r == listed(own@, text::texts(depends@), name@),
        r <= depends@.len(),
{
    let ghost deps = text::texts(depends@);
    let mut count: usize = 0;
    let mut i: usize = 0;
    assert(deps.take(0) =~= seq![]);
    while i < depends.len()
        invariant
            i <= depends@.len(),
            count <= i,
            deps == text::texts(depends@),
            count == listed(own@, deps.take(i as int), name@),
        decreases depends@.len() - i,
    {
        assert(deps.take(i + 1).drop_last() =~= deps.take(i as int));
        assert(deps[i as int] == depends@[i as int]@);
        if text::same(&kept_name(&depends[i]), name) && !text::same(name, own) {
            count = count + 1;
        }
        i = i + 1;
    }
    assert(deps.take(deps.len() as int) =~= deps);
    count
}

/// The places of machine integers.
pub open spec fn ints(v: Seq<usize>) -> Seq<int> {
    v.map_values(|k: usize| k as int)
}

/// Where the one of a list of planned packages stands that goes before the others.
fn pick_next(planned: &Vec<PlannedInstall>, waits: &Vec<usize>, left: &Vec<usize>) -> (r: usize)
    requires
        left@.len() > 0,
        waits@.len() == planned@.len(),
        distinct(planned_of(planned@)),
        forall|m: int| 0 <= m < left@.len() ==> #[trigger] left@[m] < planned@.len(),
        left@.no_duplicates(),
    ensures
        r < left@.len(),
        forall|m: int|
            0 <= m < left@.len() && m != r ==> goes_before(
                planned@[left@[r as int] as int].name@,
                waits@[left@[r as int] as int] as nat,
                planned@[(#[trigger] left@[m]) as int].name@,
                waits@[left@[m] as int] as nat,
            ),
{
    let ghost view = planned_of(planned@);
    let mut best: usize = 0;
    let mut i: usize = 1;
    while i < left.len()
        invariant
            1 <= i <= left@.len(),
            best < i,
            view == planned_of(planned@),
            waits@.len() == planned@.len(),
            distinct(view),
            forall|m: int| 0 <= m < left@.len() ==> #[trigger] left@[m] < planned@.len(),
            left@.no_duplicates(),
            forall|m: int|
                0 <= m < i && m != best ==> goes_before(
                    planned@[left@[best as int] as int].name@,
                    waits@[left@[best as int] as int] as nat,
                    planned@[(#[trigger] left@[m]) as int].name@,
                    waits@[left@[m] as int] as nat,
                ),
        decreases left@.len() - i,
    {
        let a: usize = left[i];
        let b: usize = left[best];
        proof {
            assert(a != b);
            assert(view[a as int] == planned@[a as int]@ && view[b as int] == planned@[b as int]@);
            if a < b {
                assert(view[a as int].name != view[b as int].name);
            } else {
                assert(view[b as int].name != view[a as int].name);
            }
            goes_before_total(
                planned@[a as int].name@,
                waits@[a as int] as nat,
                planned@[b as int].name@,
                waits@[b as int] as nat,
            );
        }
        if precedes(&planned[a].name, waits[a], &planned[b].name, waits[b]) {
            proof {
                assert forall|m: int| 0 <= m < i + 1 && m != i implies goes_before(
                    planned@[a as int].name@,
                    waits@[a as int] as nat,
                    planned@[(#[trigger] left@[m]) as int].name@,
                    waits@[left@[m] as int] as nat,
                ) by {
                    if m != best {
                        goes_before_transitive(
                            planned@[a as int].name@,
                            waits@[a as int] as nat,
                            planned@[b as int].name@,
                            waits@[b as int] as nat,
                            planned@[left@[m] as int].name@,
                            waits@[left@[m] as int] as nat,
                        );
                    }
                }
            }
            best = i;
        }
        i = i + 1;
    }
    best
}

/// Takes down that a package has been placed.
fn release(planned: &Vec<PlannedInstall>, waits: &mut Vec<usize>, placed: usize, Ghost(before): Ghost<
    Seq<Seq<char>>,
>)
    requires
        placed < planned@.len(),
        old(waits)@.len() == planned@.len(),
        !before.contains(planned@[placed as int].name@),
        forall|k: int|
            0 <= k < planned@.len() ==> #[trigger] old(waits)@[k] == remaining(
                planned_of(planned@),
                before,
                k,
            ),
    ensures
        final(waits)@.len() == planned@.len(),
        forall|k: int|
            0 <= k < planned@.len() ==> #[trigger] final(waits)@[k] == remaining(
                planned_of(planned@),
                before.push(planned@[placed as int].name@),
                k,
            ),
{
    let ghost view = planned_of(planned@);
    let ghost name = planned@[placed as int].name@;
    let ghost after = before.push(name);
    proof {
        names_index(view, placed as int);
        assert(view[placed as int] == planned@[placed as int]@);
    }
    let mut m: usize = 0;
    while m < planned.len()
        invariant
            m <= planned@.len(),
            placed < planned@.len(),
            waits@.len() == planned@.len(),
            view == planned_of(planned@),
            name == planned@[placed as int].name@,
            names(view).contains(name),
            !before.contains(name),
            after == before.push(name),
            forall|k: int|
                0 <= k < m ==> #[trigger] waits@[k] == remaining(view, after, k),
            forall|k: int|
                m <= k < planned@.len() ==> #[trigger] waits@[k] == remaining(view, before, k),
        decreases planned@.len() - m,
    {
        let count = count_listed(
            &planned[m].name,
            &planned[m].depends,
            &planned[placed].name,
        );
        proof {
            assert(view[m as int] == planned@[m as int]@);
            waiting_after(
                names(view),
                before,
                view[m as int].name,
                view[m as int].depends,
                name,
            );
        }
        let now: usize = waits[m];
        waits.set(m, now - count);
        m = m + 1;
    }
}

/// The order in which planned packages are installed, by their places in the plan.
pub fn install_order(planned: &Vec<PlannedInstall>) -> (r: Vec<usize>)
    requires
        distinct(planned_of(planned@)),
    ensures
        is_order(planned_of(planned@), ints(r@)),
{
    let ghost view = planned_of(planned@);
    let n: usize = planned.len();
    let mut waits: Vec<usize> = Vec::new();
    let mut left: Vec<usize> = Vec::new();
    let mut i: usize = 0;
    while i < n
        invariant
            n == planned@.len(),
            i <= n,
            view == planned_of(planned@),
            waits@.len() == i,
            left@.len() == i,
            forall|k: int| 0 <= k < i ==> #[trigger] waits@[k] == remaining(view, seq![], k),
            forall|k: int| 0 <= k < i ==> #[trigger] left@[k] == k,
        decreases n - i,
    {
        waits.push(count_waiting(planned, i));
        left.push(i);
        i = i + 1;
    }
    let mut order: Vec<usize> = Vec::new();
    let ghost mut placed: Seq<Seq<char>> = seq![];
    assert(placed_after(view, ints(order@), 0) =~= seq![]);
    assert forall|k: int| #![trigger view[k]] 0 <= k < n implies left@.contains(k as usize) by {
        assert(left@[k] == k as usize);
    }
    while left.len() > 0
        invariant
            n == planned@.len(),
            view == planned_of(planned@),
            distinct(view),
            waits@.len() == n,
            left@.len() + order@.len() == n,
            left@.no_duplicates(),
            forall|m: int| 0 <= m < left@.len() ==> #[trigger] left@[m] < n,
            forall|k: int|
                0 <= k < n ==> (!placed.contains((#[trigger] view[k]).name) <==> left@.contains(
                    k as usize,
                )),
            forall|k: int| 0 <= k < n ==> #[trigger] waits@[k] == remaining(view, placed, k),
            placed == placed_after(view, ints(order@), order@.len() as int),
            forall|j: int|
                0 <= j < order@.len() ==> is_next(
                    view,
                    placed_after(view, ints(order@), j),
                    #[trigger] ints(order@)[j],
                ),
        decreases left@.len(),
    {
        let at = pick_next(planned, &waits, &left);
        let k: usize = left[at];
        let ghost rest = left@;
        let ghost done = order@;
        let ghost name = view[k as int].name;
        proof {
            assert(rest.contains(k));
            assert(view[k as int] == planned@[k as int]@);
            assert(!placed.contains(name));
            assert forall|j: int|
                0 <= j < view.len() && !placed.contains((#[trigger] view[j]).name) && view[j].name
                    != name implies goes_before(
                name,
                remaining(view, placed, k as int),
                view[j].name,
                remaining(view, placed, j),
            ) by {
                assert(rest.contains(j as usize));
                let m = choose|m: int| 0 <= m < rest.len() && rest[m] == j as usize;
                assert(m != at);
                assert(view[j] == planned@[j]@);
                assert(rest[m] == j);
                assert(waits@[k as int] == remaining(view, placed, k as int));
                assert(waits@[j] == remaining(view, placed, j));
            }
            assert(is_next(view, placed, k as int));
        }
        left.remove(at);
        release(planned, &mut waits, k, Ghost(placed));
        order.push(k);
        proof {
            let before = placed;
            placed = placed.push(name);
            let now = ints(order@);
            assert(now =~= ints(done).push(k as int));
            assert forall|j: int| 0 <= j <= done.len() implies placed_after(view, now, j)
                == placed_after(view, ints(done), j) by {
                assert(now.take(j) =~= ints(done).take(j));
            }
            assert(placed_after(view, now, now.len() as int) =~= placed);
            assert forall|j: int| 0 <= j < order@.len() implies is_next(
                view,
                placed_after(view, now, j),
                #[trigger] now[j],
            ) by {
                if j < done.len() {
                    assert(now[j] == ints(done)[j]);
                }
            }
            assert forall|j: int| 0 <= j < n implies (!placed.contains((#[trigger] view[j]).name)
                <==> left@.contains(j as usize)) by {
                assert(placed.contains(view[j].name) <==> before.contains(view[j].name)
                    || view[j].name == name) by {
                    if before.contains(view[j].name) {
                        let i = choose|i: int|
                            0 <= i < before.len() && before[i] == view[j].name;
                        assert(placed[i] == view[j].name);
                    }
                    if view[j].name == name {
                        assert(placed[before.len() as int] == name);
                    }
                }
                if view[j].name == name {
                    if j < k {
                        assert(view[j].name != view[k as int].name);
                    }
                    if k < j {
                        assert(view[k as int].name != view[j].name);
                    }
                }
                assert(left@.contains(j as usize) <==> rest.contains(j as usize) && j != k) by {
                    if rest.contains(j as usize) && j != k {
                        let m = choose|m: int| 0 <= m < rest.len() && rest[m] == j as usize;
                        if m < at {
                            assert(left@[m] == j as usize);
                        } else {
                            assert(left@[m - 1] == j as usize);
                        }
                    }
                    if left@.contains(j as usize) {
                        let m = choose|m: int| 0 <= m < left@.len() && left@[m] == j as usize;
                        if m < at {
                            assert(rest[m] == j as usize);
                        } else {
                            assert(rest[m + 1] == j as usize);
                        }
                    }
                }
            }
        }
    }
    order
}

/// The names of the planned packages in the order in which they are installed.
pub fn topological_install_order_from_planned(planned: &Vec<PlannedInstall>) -> (r: Vec<String>)
    requires
        distinct(planned_of(planned@)),
    ensures
        exists|order: Seq<int>|
            is_order(planned_of(planned@), order) && text::texts(r@) == placed_after(
                planned_of(planned@),
                order,
                order.len() as int,
            ),
{
    let ghost view = planned_of(planned@);
    let order = install_order(planned);
    let ghost all = ints(order@);
    let ghost want = placed_after(view, all, all.len() as int);
    let mut out: Vec<String> = Vec::new();
    let mut i: usize = 0;
    while i < order.len()
        invariant
            i <= order@.len(),
            view == planned_of(planned@),
            all == ints(order@),
            is_order(view, all),
            want == placed_after(view, all, all.len() as int),
            text::texts(out@) == want.take(i as int),
        decreases order@.len() - i,
    {
        assert(is_next(view, placed_after(view, all, i as int), all[i as int]));
        let k: usize = order[i];
        assert(view[k as int] == planned@[k as int]@);
        let ghost before = out@;
        out.push(text::copy(&planned[k].name));
        assert(text::texts(out@) =~= text::texts(before).push(want[i as int]));
        i = i + 1;
        assert(text::texts(out@) =~= want.take(i as int));
    }
    assert(want.take(want.len() as int) =~= want);
    out
}

/// Each planned package is placed at most once.
pub proof fn order_places_once(planned: Seq<PlannedView>, order: Seq<int>, i: int, j: int)
    requires
        is_order(planned, order),
        0 <= i < j < order.len(),
    ensures
        planned[order[i]].name != planned[order[j]].name,
{
    let placed = placed_after(planned, order, j);
    assert(is_next(planned, placed, order[j]));
    assert(placed[i] == planned[order[i]].name);
    assert(placed.contains(planned[order[i]].name));
}

/// Every planned package is placed.
pub proof fn order_places_all(planned: Seq<PlannedView>, order: Seq<int>, k: int)
    requires
        is_order(planned, order),
        0 <= k < planned.len(),
    ensures
        order.contains(k),
{
    let n = planned.len() as int;
    assert(order.no_duplicates()) by {
        assert forall|i: int, j: int| 0 <= i < order.len() && 0 <= j < order.len() && i
            != j implies order[i] != order[j] by {
            if i < j {
                order_places_once(planned, order, i, j);
            } else {
                order_places_once(planned, order, j, i);
            }
        }
    }
    let all = vstd::set_lib::set_int_range(0, n);
    vstd::set_lib::lemma_int_range(0, n);
    let placed = order.to_set();
    order.unique_seq_to_set();
    assert(placed.subset_of(all)) by {
        assert forall|x: int| placed.contains(x) implies all.contains(x) by {
            let i = choose|i: int| 0 <= i < order.len() && order[i] == x;
            assert(is_next(planned, placed_after(planned, order, i), order[i]));
        }
    }
    vstd::set_lib::lemma_subset_equality(placed, all);
    assert(placed.contains(k));
}

/// There is only one order: what the plan holds decides it.
pub proof fn order_unique(planned: Seq<PlannedView>, a: Seq<int>, b: Seq<int>)
    requires
        distinct(planned),
        is_order(planned, a),
        is_order(planned, b),
    ensures
        a == b,
{
    assert forall|i: int| 0 <= i < a.len() implies a[i] == b[i] by {
        order_agrees(planned, a, b, i + 1);
        assert(a.take(i + 1)[i] == b.take(i + 1)[i]);
    }
}

proof fn order_agrees(planned: Seq<PlannedView>, a: Seq<int>, b: Seq<int>, i: int)
    requires
        distinct(planned),
        is_order(planned, a),
        is_order(planned, b),
        0 <= i <= a.len(),
    ensures
        a.take(i) == b.take(i),
    decreases i,
{
    if i > 0 {
        order_agrees(planned, a, b, i - 1);
        let placed = placed_after(planned, a, i - 1);
        assert(is_next(planned, placed, a[i - 1]));
        assert(is_next(planned, placed_after(planned, b, i - 1), b[i - 1]));
        let x = a[i - 1];
        let y = b[i - 1];
        if planned[x].name != planned[y].name {
            goes_before_asymmetric(
                planned[x].name,
                remaining(planned, placed, x),
                planned[y].name,
                remaining(planned, placed, y),
            );
        }
        if x < y {
            assert(planned[x].name != planned[y].name);
        }
        if y < x {
            assert(planned[y].name != planned[x].name);
        }
        assert(a.take(i) =~= a.take(i - 1).push(x));
        assert(b.take(i) =~= b.take(i - 1).push(y));
    }
}

/// Whether a rank shows that planned packages do not depend on each other in
/// a circle: each has a higher rank than the planned packages it depends on.
pub open spec fn ranked(planned: Seq<PlannedView>, rank: spec_fn(Seq<char>) -> nat) -> bool {
    forall|k: int, d: int|
        0 <= k < planned.len() && 0 <= d < planned[k].depends.len() && kept(
            #[trigger] planned[k].depends[d],
        ) != planned[k].name && names(planned).contains(kept(planned[k].depends[d])) ==> rank(
            kept(planned[k].depends[d]),
        ) < rank(planned[k].name)
}

/// A package that waits for nothing has every planned dependency placed.
proof fn nothing_waiting(
    all: Seq<Seq<char>>,
    placed: Seq<Seq<char>>,
    own: Seq<char>,
    depends: Seq<Seq<char>>,
    d: int,
)
    requires
        waiting(all, placed, own, depends) == 0,
        0 <= d < depends.len(),
    ensures
        !waits_for(all, placed, own, depends[d]),
    decreases depends.len(),
{
    if d < depends.len() - 1 {
        nothing_waiting(all, placed, own, depends.drop_last(), d);
        assert(depends.drop_last()[d] == depends[d]);
    }
}

/// A package of which no dependency waits does not wait.
proof fn none_waits(
    all: Seq<Seq<char>>,
    placed: Seq<Seq<char>>,
    own: Seq<char>,
    depends: Seq<Seq<char>>,
)
    requires
        forall|d: int| 0 <= d < depends.len() ==> !waits_for(all, placed, own, #[trigger] depends[d]),
    ensures
        waiting(all, placed, own, depends) == 0,
    decreases depends.len(),
{
    if depends.len() > 0 {
        let init = depends.drop_last();
        assert forall|d: int| 0 <= d < init.len() implies !waits_for(
            all,
            placed,
            own,
            #[trigger] init[d],
        ) by {
            assert(init[d] == depends[d]);
        }
        none_waits(all, placed, own, init);
        assert(depends.last() == depends[depends.len() - 1]);
    }
}

/// Of the packages that are not placed yet, one with the lowest rank waits for nothing.
proof fn lowest_is_free(
    planned: Seq<PlannedView>,
    placed: Seq<Seq<char>>,
    rank: spec_fn(Seq<char>) -> nat,
    k: int,
) -> (free: int)
    requires
        ranked(planned, rank),
        0 <= k < planned.len(),
        !placed.contains(planned[k].name),
    ensures
        0 <= free < planned.len(),
        !placed.contains(planned[free].name),
        remaining(planned, placed, free) == 0,
    decreases rank(planned[k].name),
{
    let own = planned[k].name;
    let depends = planned[k].depends;
    if exists|d: int| 0 <= d < depends.len() && waits_for(names(planned), placed, own, depends[d]) {
        let d = choose|d: int|
            0 <= d < depends.len() && waits_for(names(planned), placed, own, depends[d]);
        let dep = kept(planned[k].depends[d]);
        let m = choose|m: int| 0 <= m < names(planned).len() && names(planned)[m] == dep;
        assert(planned[m].name == dep);
        assert(rank(dep) < rank(own));
        lowest_is_free(planned, placed, rank, m)
    } else {
        none_waits(names(planned), placed, own, depends);
        k
    }
}

/// Where planned packages do not depend on each other in a circle, each is
/// installed after every planned package that it depends on.
pub proof fn dependencies_come_first(
    planned: Seq<PlannedView>,
    order: Seq<int>,
    rank: spec_fn(Seq<char>) -> nat,
    i: int,
    d: int,
)
    requires
        distinct(planned),
        is_order(planned, order),
        ranked(planned, rank),
        0 <= i < order.len(),
        0 <= d < planned[order[i]].depends.len(),
        names(planned).contains(kept(planned[order[i]].depends[d])),
        kept(planned[order[i]].depends[d]) != planned[order[i]].name,
    ensures
        exists|j: int|
            0 <= j < i && (#[trigger] planned[order[j]]).name == kept(planned[order[i]].depends[d]),
{
    let placed = placed_after(planned, order, i);
    let k = order[i];
    assert(is_next(planned, placed, order[i]));
    let free = lowest_is_free(planned, placed, rank, k);
    if planned[free].name != planned[k].name {
        assert(goes_before(
            planned[k].name,
            remaining(planned, placed, k),
            planned[free].name,
            remaining(planned, placed, free),
        ));
    }
    if free < k {
        assert(planned[free].name != planned[k].name);
    }
    if k < free {
        assert(planned[k].name != planned[free].name);
    }
    assert(remaining(planned, placed, k) == 0);
    nothing_waiting(names(planned), placed, planned[k].name, planned[k].depends, d);
    let dep = kept(planned[k].depends[d]);
    assert(placed.contains(dep));
    let j = choose|j: int| 0 <= j < placed.len() && placed[j] == dep;
    assert(planned[order[j]].name == dep);
}

// ---------------------------------------------------------------------------
// The plan

/// The name that a target asks for.
pub open spec fn asked(target: TargetView) -> Seq<char> {
    kept(
        match target.requested_name {
            Some(n) => n,
            None => target.source,
        },
    )
}

/// What is to be installed for a dependency that a repository has and that is
/// neither installed nor planned.
pub open spec fn needed_target(
    table: Seq<database::InstalledView>,
    repos: Seq<repo::RepoIndexView>,
    planned: Seq<PlannedView>,
    dep: Seq<char>,
) -> Option<TargetView> {
    let name = kept(dep);
    if manager::installed_as(table, name) is Some || names(planned).contains(name) {
        None
    } else {
        match repo::package_location(repos, name) {
            Some(url) => Some(
                TargetView {
                    requested_name: Some(name),
                    source: url,
                    location: url,
                    metadata: None,
                },
            ),
            None => None,
        }
    }
}

/// What is to be installed for a list of dependencies.
pub open spec fn needed(
    table: Seq<database::InstalledView>,
    repos: Seq<repo::RepoIndexView>,
    planned: Seq<PlannedView>,
    depends: Seq<Seq<char>>,
) -> Seq<TargetView>
    decreases depends.len(),
{
    if depends.len() == 0 {
        seq![]
    } else {
        match needed_target(table, repos, planned, depends.last()) {
            Some(t) => needed(table, repos, planned, depends.drop_last()).push(t),
            None => needed(table, repos, planned, depends.drop_last()),
        }
    }
}

/// The package that a target is planned as: it is neither installed nor
/// planned, and a repository has it under a name that is not planned.
pub open spec fn fresh(
    table: Seq<database::InstalledView>,
    repos: Seq<repo::RepoIndexView>,
    planned: Seq<PlannedView>,
    target: TargetView,
) -> Option<repo::RepoPackageView> {
    let name = asked(target);
    if manager::installed_as(table, name) is Some || names(planned).contains(name) {
        None
    } else {
        match repo::package_info(repos, name) {
            Some(info) => if names(planned).contains(repo::canonical(info.name)) {
                None
            } else {
                Some(info)
            },
            None => None,
        }
    }
}

/// A target as it is planned.
pub open spec fn planned_as(target: TargetView, info: repo::RepoPackageView) -> PlannedView {
    PlannedView {
        name: repo::canonical(info.name),
        target,
        depends: info.depends.map_values(|d: Seq<char>| pkg_utils::dependency_name(d)),
    }
}

/// The names that the packages of an index are kept under.
pub open spec fn index_names(packages: Seq<repo::RepoPackageView>) -> Seq<Seq<char>> {
    packages.map_values(|p: repo::RepoPackageView| repo::canonical(p.name))
}

/// The names that the packages of all repositories are kept under.
pub open spec fn all_names(repos: Seq<repo::RepoIndexView>) -> Seq<Seq<char>>
    decreases repos.len(),
{
    if repos.len() == 0 {
        seq![]
    } else {
        all_names(repos.drop_last()) + (match repos.last().packages {
            Some(packages) => index_names(packages),
            None => seq![],
        })
    }
}

/// How many of a list of names are not planned.
pub open spec fn unplanned(all: Seq<Seq<char>>, planned: Seq<Seq<char>>) -> nat
    decreases all.len(),
{
    if all.len() == 0 {
        0
    } else {
        unplanned(all.drop_last(), planned) + (if planned.contains(all.last()) {
            0nat
        } else {
            1nat
        })
    }
}

/// Planning one more name leaves no more names unplanned, and fewer if the
/// name is in the list and was not planned.
pub proof fn unplanned_shrinks(all: Seq<Seq<char>>, planned: Seq<Seq<char>>, name: Seq<char>)
    ensures
        unplanned(all, planned.push(name)) <= unplanned(all, planned),
        all.contains(name) && !planned.contains(name) ==> unplanned(all, planned.push(name))
            < unplanned(all, planned),
    decreases all.len(),
{
    if all.len() > 0 {
        let init = all.drop_last();
        let last = all.last();
        unplanned_shrinks(init, planned, name);
        if planned.contains(last) {
            let i = choose|i: int| 0 <= i < planned.len() && planned[i] == last;
            assert(planned.push(name)[i] == last);
        }
        assert(planned.push(name)[planned.len() as int] == name);
        if all.contains(name) && last != name {
            let i = choose|i: int| 0 <= i < all.len() && all[i] == name;
            assert(init[i] == name);
        }
        if planned.push(name).contains(last) && !planned.contains(last) {
            let i = choose|i: int|
                0 <= i < planned.push(name).len() && planned.push(name)[i] == last;
            if i < planned.len() {
                assert(planned[i] == last);
            }
            assert(last == name);
        }
    }
}

/// What answers a request is one of the packages of the repositories.
pub proof fn answer_is_listed(repos: Seq<repo::RepoIndexView>, requested: Seq<char>, i: int)
    requires
        0 <= i <= repos.len(),
    ensures
        repo::answer_from(repos, requested, i) matches Some(a) ==> all_names(repos).contains(
            repo::canonical(a.1.name),
        ),
    decreases repos.len() - i,
{
    if i < repos.len() {
        answer_is_listed(repos, requested, i + 1);
        if let Some(packages) = repos[i].packages {
            if let Some(p) = repo::first_answer(packages, requested, 0) {
                first_answer_is_listed(packages, requested, 0);
                index_is_listed(repos, i, repo::canonical(p.name));
            }
        }
    }
}

proof fn first_answer_is_listed(
    packages: Seq<repo::RepoPackageView>,
    requested: Seq<char>,
    i: int,
)
    requires
        0 <= i <= packages.len(),
    ensures
        repo::first_answer(packages, requested, i) matches Some(p) ==> index_names(
            packages,
        ).contains(repo::canonical(p.name)),
    decreases packages.len() - i,
{
    if i < packages.len() {
        first_answer_is_listed(packages, requested, i + 1);
        assert(index_names(packages)[i] == repo::canonical(packages[i].name));
    }
}

proof fn index_is_listed(repos: Seq<repo::RepoIndexView>, i: int, name: Seq<char>)
    requires
        0 <= i < repos.len(),
        repos[i].packages is Some,
        index_names(repos[i].packages->0).contains(name),
    ensures
        all_names(repos).contains(name),
    decreases repos.len(),
{
    let before = all_names(repos.drop_last());
    if i == repos.len() - 1 {
        let own = index_names(repos[i].packages->0);
        let j = choose|j: int| 0 <= j < own.len() && own[j] == name;
        assert(all_names(repos)[before.len() + j] == name);
    } else {
        assert(repos.drop_last()[i] == repos[i]);
        index_is_listed(repos.drop_last(), i, name);
        let j = choose|j: int| 0 <= j < before.len() && before[j] == name;
        assert(all_names(repos)[j] == name);
    }
}

/// Planning a fresh target leaves fewer names of the repositories unplanned.
pub proof fn fresh_shrinks(
    table: Seq<database::InstalledView>,
    repos: Seq<repo::RepoIndexView>,
    planned: Seq<PlannedView>,
    target: TargetView,
)
    ensures
        fresh(table, repos, planned, target) matches Some(info) ==> unplanned(
            all_names(repos),
            names(planned.push(planned_as(target, info))),
        ) < unplanned(all_names(repos), names(planned)),
{
    if let Some(info) = fresh(table, repos, planned, target) {
        answer_is_listed(repos, asked(target), 0);
        unplanned_shrinks(all_names(repos), names(planned), repo::canonical(info.name));
        assert(names(planned.push(planned_as(target, info))) =~= names(planned).push(
            repo::canonical(info.name),
        ));
    }
}

/// The plan for a queue of targets, after what is planned already. A target
/// that is installed, planned or in no repository adds nothing; another is
/// planned, and what it depends on joins the queue.
pub open spec fn resolved(
    table: Seq<database::InstalledView>,
    repos: Seq<repo::RepoIndexView>,
    queue: Seq<TargetView>,
    planned: Seq<PlannedView>,
) -> Seq<PlannedView>
    decreases unplanned(all_names(repos), names(planned)), queue.len(),
{
    proof {
        if queue.len() > 0 {
            fresh_shrinks(table, repos, planned, queue[0]);
        }
    }
    if queue.len() == 0 {
        planned
    } else {
        match fresh(table, repos, planned, queue[0]) {
            Some(info) => resolved(
                table,
                repos,
                queue.drop_first() + needed(table, repos, planned, info.depends),
                planned.push(planned_as(queue[0], info)),
            ),
            None => resolved(table, repos, queue.drop_first(), planned),
        }
    }
}

fn find_fresh(
    db: &Database,
    repos: &Vec<RepoIndex>,
    planned: &Vec<PlannedInstall>,
    target: &InstallTarget,
) -> (r: Result<Option<repo::JsonRepoPackage>, LkpmError>)
    ensures
        match r {
            Ok(Some(info)) => fresh(
                db@,
                repo::indexes(repos@),
                planned_of(planned@),
                target@,
            ) == Some(info@),
            Ok(None) => fresh(db@, repo::indexes(repos@), planned_of(planned@), target@) is None,
            Err(_) => false,
        },
{
    let name = match &target.requested_name {
        Some(n) => kept_name(n),
        None => kept_name(&target.source),
    };
    assert(name@ == asked(target@));
    if manager::find_installed_package(db, &name)?.is_some() || has_name(planned, &name) {
        return Ok(None);
    }
    match repo::find_repo_package_info(repos, &name)? {
        Some(info) => if has_name(planned, repo::canonical_package_name(&info.name)) {
            Ok(None)
        } else {
            Ok(Some(info))
        },
        None => Ok(None),
    }
}

fn push_needed(
    db: &Database,
    repos: &Vec<RepoIndex>,
    planned: &Vec<PlannedInstall>,
    depends: &Vec<String>,
    queue: &mut Vec<InstallTarget>,
) -> (r: Result<(), LkpmError>)
    ensures
        r is Ok,
        targets(final(queue)@) == targets(old(queue)@) + needed(
            db@,
            repo::indexes(repos@),
            planned_of(planned@),
            text::texts(depends@),
        ),
{
    let ghost deps = text::texts(depends@);
    let ghost start = targets(queue@);
    let ghost view = planned_of(planned@);
    let ghost ix = repo::indexes(repos@);
    let mut i: usize = 0;
    assert(deps.take(0) =~= seq![]);
    assert(start + needed(db@, ix, view, deps.take(0)) =~= start);
    while i < depends.len()
        invariant
            i <= depends@.len(),
            deps == text::texts(depends@),
            view == planned_of(planned@),
            ix == repo::indexes(repos@),
            targets(queue@) == start + needed(db@, ix, view, deps.take(i as int)),
        decreases depends@.len() - i,
    {
        assert(deps.take(i + 1).drop_last() =~= deps.take(i as int));
        assert(deps[i as int] == depends@[i as int]@);
        let name = kept_name(&depends[i]);
        let ghost before = queue@;
        if manager::find_installed_package(db, &name)?.is_none() && !has_name(planned, &name) {
            if let Some(location) = repo::find_pkg_in_repos_location(repos, &name)? {
                let source = match &location {
                    PackageLocation::Remote(url) => text::copy(url),
                };
                let t = InstallTarget {
                    requested_name: Some(name),
                    source,
                    location,
                    metadata: None,
                };
                let ghost tv = t@;
                queue.push(t);
                assert(targets(queue@) =~= targets(before).push(tv));
                assert(needed_target(db@, ix, view, deps[i as int]) == Some(tv));
                assert(targets(queue@) =~= start + needed(db@, ix, view, deps.take(i + 1)));
            }
        }
        i = i + 1;
    }
    assert(deps.take(deps.len() as int) =~= deps);
    Ok(())
}

fn clean_names(v: &Vec<String>) -> (r: Vec<String>)
    ensures
        text::texts(r@) == text::texts(v@).map_values(
            |d: Seq<char>| pkg_utils::dependency_name(d),
        ),
{
    let ghost want = text::texts(v@).map_values(|d: Seq<char>| pkg_utils::dependency_name(d));
    let mut out: Vec<String> = Vec::new();
    let mut i: usize = 0;
    while i < v.len()
        invariant
            i <= v@.len(),
            want == text::texts(v@).map_values(|d: Seq<char>| pkg_utils::dependency_name(d)),
            text::texts(out@) == want.take(i as int),
        decreases v@.len() - i,
    {
        let ghost before = out@;
        out.push(pkg_utils::normalize_dependency_name(&v[i]));
        assert(text::texts(out@) =~= text::texts(before).push(want[i as int]));
        i = i + 1;
        assert(text::texts(out@) =~= want.take(i as int));
    }
    assert(want.take(v@.len() as int) =~= want);
    out
}

/// The plan for a list of targets: the targets and all that they depend on,
/// as far as it is not installed.
pub fn plan_installation(
    db: &Database,
    repos: &Vec<RepoIndex>,
    initial_targets: Vec<InstallTarget>,
) -> (r: Result<Vec<PlannedInstall>, LkpmError>)
    ensures
        match r {
            Ok(planned) => planned_of(planned@) == resolved(
                db@,
                repo::indexes(repos@),
                targets(initial_targets@),
                seq![],
            ) && distinct(planned_of(planned@)),
            Err(_) => false,
        },
{
    let ghost ix = repo::indexes(repos@);
    let ghost goal = resolved(db@, ix, targets(initial_targets@), seq![]);
    let mut queue = initial_targets;
    let mut planned: Vec<PlannedInstall> = Vec::new();
    let mut head: usize = 0;
    assert(targets(queue@).skip(0) =~= targets(queue@));
    assert(planned_of(planned@) =~= seq![]);
    while head < queue.len()
        invariant
            head <= queue@.len(),
            ix == repo::indexes(repos@),
            distinct(planned_of(planned@)),
            goal == resolved(db@, ix, targets(queue@).skip(head as int), planned_of(planned@)),
        decreases
                unplanned(all_names(ix), names(planned_of(planned@))),
                queue@.len() - head,
    {
        let ghost rest = targets(queue@).skip(head as int);
        let ghost view = planned_of(planned@);
        let target = queue[head].copy();
        assert(rest[0] == target@);
        assert(rest.drop_first() =~= targets(queue@).skip(head + 1));
        proof {
            fresh_shrinks(db@, ix, view, target@);
        }
        if let Some(info) = find_fresh(db, repos, &planned, &target)? {
            let ghost old_queue = targets(queue@);
            push_needed(db, repos, &planned, &info.depends, &mut queue)?;
            assert(targets(queue@).skip(head + 1) =~= old_queue.skip(head + 1) + needed(
                db@,
                ix,
                view,
                info@.depends,
            ));
            let p = PlannedInstall {
                name: manager::canonical_package_name(&info.name),
                target,
                depends: clean_names(&info.depends),
            };
            assert(p@ == planned_as(rest[0], info@));
            let ghost before = planned@;
            let ghost pv = p@;
            planned.push(p);
            assert(planned_of(planned@) =~= view.push(pv));
            assert forall|i: int, j: int|
                0 <= i < j < planned_of(planned@).len() implies (#[trigger] planned_of(
                planned@,
            )[i]).name != (#[trigger] planned_of(planned@)[j]).name by {
                assert(planned_of(planned@)[i] == view[i]);
                if j < view.len() {
                    assert(planned_of(planned@)[j] == view[j]);
                } else {
                    names_index(view, i);
                }
            }
        }
        head = head + 1;
    }
    assert(targets(queue@).skip(head as int) =~= seq![]);
    Ok(planned)
}

/// The targets of a plan in the order in which they are installed.
pub open spec fn ordered(planned: Seq<PlannedView>, order: Seq<int>) -> Seq<TargetView> {
    order.map_values(|k: int| planned[k].target)
}

/// What to install for a list of targets, and in which order.
pub fn resolve_installation_plan(
    db: &Database,
    repos: &Vec<RepoIndex>,
    initial_targets: Vec<InstallTarget>,
) -> (r: Result<Vec<InstallTarget>, LkpmError>)
    ensures
        match r {
            Ok(v) => {
                let planned = resolved(
                    db@,
                    repo::indexes(repos@),
                    targets(initial_targets@),
                    seq![],
                );
                exists|order: Seq<int>|
                    is_order(planned, order) && targets(v@) == #[trigger] ordered(planned, order)
            },
            Err(_) => false,
        },
{
    let planned = plan_installation(db, repos, initial_targets)?;
    let ghost view = planned_of(planned@);
    let order = install_order(&planned);
    let ghost all = ints(order@);
    let ghost want = ordered(view, all);
    let mut out: Vec<InstallTarget> = Vec::new();
    let mut i: usize = 0;
    while i < order.len()
        invariant
            i <= order@.len(),
            view == planned_of(planned@),
            all == ints(order@),
            is_order(view, all),
            want == ordered(view, all),
            targets(out@) == want.take(i as int),
        decreases order@.len() - i,
    {
        assert(is_next(view, placed_after(view, all, i as int), all[i as int]));
        let k: usize = order[i];
        assert(view[k as int] == planned@[k as int]@);
        let ghost before = out@;
        out.push(planned[k].target.copy());
        assert(targets(out@) =~= targets(before).push(want[i as int]));
        i = i + 1;
        assert(targets(out@) =~= want.take(i as int));
    }
    assert(want.take(want.len() as int) =~= want);
    Ok(out)
}

// ---------------------------------------------------------------------------
// What a plan leaves open

/// Whether a plan leaves nothing to do for a name: the package is installed,
/// or no repository has it, or it is planned.
pub open spec fn settled(
    table: Seq<database::InstalledView>,
    repos: Seq<repo::RepoIndexView>,
    planned: Seq<PlannedView>,
    name: Seq<char>,
) -> bool {
    ||| manager::installed_as(table, name) is Some
    ||| repo::package_info(repos, name) is None
    ||| names(planned).contains(name)
    ||| names(planned).contains(repo::canonical(repo::package_info(repos, name)->0.name))
}

/// Whether a queue holds a target that asks for a name.
pub open spec fn queued(queue: Seq<TargetView>, name: Seq<char>) -> bool {
    exists|i: int| 0 <= i < queue.len() && asked(#[trigger] queue[i]) == name
}

/// Whether every dependency of the planned packages is settled or queued.
pub open spec fn accounted(
    table: Seq<database::InstalledView>,
    repos: Seq<repo::RepoIndexView>,
    queue: Seq<TargetView>,
    planned: Seq<PlannedView>,
) -> bool {
    forall|k: int, d: int|
        0 <= k < planned.len() && 0 <= d < planned[k].depends.len() ==> settled(
            table,
            repos,
            planned,
            kept(#[trigger] planned[k].depends[d]),
        ) || queued(queue, kept(planned[k].depends[d]))
}

/// What is settled stays settled when more is planned.
proof fn settled_stays(
    table: Seq<database::InstalledView>,
    repos: Seq<repo::RepoIndexView>,
    planned: Seq<PlannedView>,
    more: PlannedView,
    name: Seq<char>,
)
    requires
        settled(table, repos, planned, name),
    ensures
        settled(table, repos, planned.push(more), name),
{
    let now = names(planned.push(more));
    assert(now =~= names(planned).push(more.name));
    assert forall|x: Seq<char>| names(planned).contains(x) implies now.contains(x) by {
        let i = choose|i: int| 0 <= i < names(planned).len() && names(planned)[i] == x;
        assert(now[i] == x);
    }
}

/// The head of a queue is settled once it has been dealt with.
proof fn head_settled(
    table: Seq<database::InstalledView>,
    repos: Seq<repo::RepoIndexView>,
    planned: Seq<PlannedView>,
    target: TargetView,
)
    ensures
        match fresh(table, repos, planned, target) {
            Some(info) => settled(
                table,
                repos,
                planned.push(planned_as(target, info)),
                asked(target),
            ),
            None => settled(table, repos, planned, asked(target)),
        },
{
    if let Some(info) = fresh(table, repos, planned, target) {
        let now = planned.push(planned_as(target, info));
        names_index(now, planned.len() as int);
    }
}

/// A dependency that is not settled is among what is needed.
proof fn needed_or_settled(
    table: Seq<database::InstalledView>,
    repos: Seq<repo::RepoIndexView>,
    planned: Seq<PlannedView>,
    depends: Seq<Seq<char>>,
    d: int,
)
    requires
        0 <= d < depends.len(),
    ensures
        settled(table, repos, planned, kept(depends[d])) || queued(
            needed(table, repos, planned, depends),
            kept(depends[d]),
        ),
    decreases depends.len(),
{
    let init = depends.drop_last();
    let rest = needed(table, repos, planned, init);
    let all = needed(table, repos, planned, depends);
    if d < init.len() {
        needed_or_settled(table, repos, planned, init, d);
        assert(init[d] == depends[d]);
        if queued(rest, kept(depends[d])) {
            let i = choose|i: int|
                0 <= i < rest.len() && asked(#[trigger] rest[i]) == kept(depends[d]);
            assert(all[i] == rest[i]);
        }
    } else {
        repo::located_when_described(repos, kept(depends[d]));
        kept_fixed(depends[d]);
        if let Some(t) = needed_target(table, repos, planned, depends[d]) {
            assert(all[rest.len() as int] == t);
            assert(asked(t) == kept(depends[d]));
        }
    }
}

/// What is queued stays queued when the queue grows.
proof fn queued_stays(queue: Seq<TargetView>, more: Seq<TargetView>, name: Seq<char>)
    ensures
        queued(queue, name) ==> queued(queue + more, name),
        queued(more, name) ==> queued(queue + more, name),
{
    let all = queue + more;
    if queued(queue, name) {
        let i = choose|i: int| 0 <= i < queue.len() && asked(#[trigger] queue[i]) == name;
        assert(all[i] == queue[i]);
    }
    if queued(more, name) {
        let i = choose|i: int| 0 <= i < more.len() && asked(#[trigger] more[i]) == name;
        assert(all[queue.len() + i] == more[i]);
    }
}

/// What is queued behind the head is queued without it.
proof fn queued_behind(queue: Seq<TargetView>, name: Seq<char>)
    requires
        queued(queue, name),
    ensures
        asked(queue[0]) == name || queued(queue.drop_first(), name),
{
    let i = choose|i: int| 0 <= i < queue.len() && asked(#[trigger] queue[i]) == name;
    if i > 0 {
        assert(queue.drop_first()[i - 1] == queue[i]);
    }
}

/// A name that is settled or queued is settled in the plan.
proof fn plan_settles(
    table: Seq<database::InstalledView>,
    repos: Seq<repo::RepoIndexView>,
    queue: Seq<TargetView>,
    planned: Seq<PlannedView>,
    name: Seq<char>,
)
    requires
        settled(table, repos, planned, name) || queued(queue, name),
    ensures
        settled(table, repos, resolved(table, repos, queue, planned), name),
    decreases unplanned(all_names(repos), names(planned)), queue.len(),
{
    if queue.len() > 0 {
        fresh_shrinks(table, repos, planned, queue[0]);
        head_settled(table, repos, planned, queue[0]);
        if queued(queue, name) {
            queued_behind(queue, name);
        }
        match fresh(table, repos, planned, queue[0]) {
            Some(info) => {
                let more = needed(table, repos, planned, info.depends);
                queued_stays(queue.drop_first(), more, name);
                if settled(table, repos, planned, name) {
                    settled_stays(table, repos, planned, planned_as(queue[0], info), name);
                }
                plan_settles(
                    table,
                    repos,
                    queue.drop_first() + more,
                    planned.push(planned_as(queue[0], info)),
                    name,
                );
            },
            None => {
                plan_settles(table, repos, queue.drop_first(), planned, name);
            },
        }
    }
}

/// Dealing with the head of the queue keeps every dependency accounted for.
proof fn step_accounts(
    table: Seq<database::InstalledView>,
    repos: Seq<repo::RepoIndexView>,
    queue: Seq<TargetView>,
    planned: Seq<PlannedView>,
)
    requires
        queue.len() > 0,
        accounted(table, repos, queue, planned),
    ensures
        match fresh(table, repos, planned, queue[0]) {
            Some(info) => accounted(
                table,
                repos,
                queue.drop_first() + needed(table, repos, planned, info.depends),
                planned.push(planned_as(queue[0], info)),
            ),
            None => accounted(table, repos, queue.drop_first(), planned),
        },
{
    head_settled(table, repos, planned, queue[0]);
    match fresh(table, repos, planned, queue[0]) {
        Some(info) => {
            let more = needed(table, repos, planned, info.depends);
            let added = planned_as(queue[0], info);
            let now = planned.push(added);
            let rest = queue.drop_first() + more;
            assert forall|k: int, d: int|
                0 <= k < now.len() && 0 <= d < now[k].depends.len() implies settled(
                table,
                repos,
                now,
                kept(#[trigger] now[k].depends[d]),
            ) || queued(rest, kept(now[k].depends[d])) by {
                let name = kept(now[k].depends[d]);
                if k < planned.len() {
                    assert(now[k] == planned[k]);
                    let old_dep = planned[k].depends[d];
                    assert(settled(table, repos, planned, kept(old_dep)) || queued(
                        queue,
                        kept(old_dep),
                    ));
                    if settled(table, repos, planned, name) {
                        settled_stays(table, repos, planned, added, name);
                    } else {
                        queued_behind(queue, name);
                    }
                } else {
                    let dep = info.depends[d];
                    pkg_utils::dependency_name_idempotent(dep);
                    assert(added.depends[d] == pkg_utils::dependency_name(dep));
                    needed_or_settled(table, repos, planned, info.depends, d);
                    if settled(table, repos, planned, name) {
                        settled_stays(table, repos, planned, added, name);
                    }
                }
                queued_stays(queue.drop_first(), more, name);
            }
        },
        None => {
            let rest = queue.drop_first();
            assert forall|k: int, d: int|
                0 <= k < planned.len() && 0 <= d < planned[k].depends.len() implies settled(
                table,
                repos,
                planned,
                kept(#[trigger] planned[k].depends[d]),
            ) || queued(rest, kept(planned[k].depends[d])) by {
                let name = kept(planned[k].depends[d]);
                if queued(queue, name) {
                    queued_behind(queue, name);
                }
            }
        },
    }
}

proof fn plan_accounts(
    table: Seq<database::InstalledView>,
    repos: Seq<repo::RepoIndexView>,
    queue: Seq<TargetView>,
    planned: Seq<PlannedView>,
)
    requires
        accounted(table, repos, queue, planned),
    ensures
        accounted(table, repos, seq![], resolved(table, repos, queue, planned)),
    decreases unplanned(all_names(repos), names(planned)), queue.len(),
{
    if queue.len() == 0 {
        assert(queue =~= seq![]);
    } else {
        fresh_shrinks(table, repos, planned, queue[0]);
        step_accounts(table, repos, queue, planned);
        match fresh(table, repos, planned, queue[0]) {
            Some(info) => {
                plan_accounts(
                    table,
                    repos,
                    queue.drop_first() + needed(table, repos, planned, info.depends),
                    planned.push(planned_as(queue[0], info)),
                );
            },
            None => {
                plan_accounts(table, repos, queue.drop_first(), planned);
            },
        }
    }
}

/// Every target that a plan was made for is installed, in no repository, or planned.
pub proof fn targets_are_settled(
    table: Seq<database::InstalledView>,
    repos: Seq<repo::RepoIndexView>,
    initial: Seq<TargetView>,
    i: int,
)
    requires
        0 <= i < initial.len(),
    ensures
        settled(table, repos, resolved(table, repos, initial, seq![]), asked(initial[i])),
{
    assert(queued(initial, asked(initial[i])));
    plan_settles(table, repos, initial, seq![], asked(initial[i]));
}

/// Every dependency of a planned package is installed, in no repository, or planned.
pub proof fn dependencies_are_settled(
    table: Seq<database::InstalledView>,
    repos: Seq<repo::RepoIndexView>,
    initial: Seq<TargetView>,
    k: int,
    d: int,
)
    requires
        0 <= k < resolved(table, repos, initial, seq![]).len(),
        0 <= d < resolved(table, repos, initial, seq![])[k].depends.len(),
    ensures
        settled(
            table,
            repos,
            resolved(table, repos, initial, seq![]),
            kept(resolved(table, repos, initial, seq![])[k].depends[d]),
        ),
{
    let none: Seq<PlannedView> = seq![];
    assert(accounted(table, repos, initial, none));
    plan_accounts(table, repos, initial, none);
    let planned = resolved(table, repos, initial, none);
    let dep = kept(planned[k].depends[d]);
    let empty: Seq<TargetView> = seq![];
    assert(!queued(empty, dep));
}

/// Nothing is planned twice.
pub proof fn nothing_planned_twice(
    table: Seq<database::InstalledView>,
    repos: Seq<repo::RepoIndexView>,
    queue: Seq<TargetView>,
    planned: Seq<PlannedView>,
)
    requires
        distinct(planned),
    ensures
        distinct(resolved(table, repos, queue, planned)),
    decreases unplanned(all_names(repos), names(planned)), queue.len(),
{
    if queue.len() > 0 {
        fresh_shrinks(table, repos, planned, queue[0]);
        match fresh(table, repos, planned, queue[0]) {
            Some(info) => {
                let now = planned.push(planned_as(queue[0], info));
                assert forall|i: int, j: int| 0 <= i < j < now.len() implies (
                #[trigger] now[i]).name != (#[trigger] now[j]).name by {
                    assert(now[i] == planned[i]);
                    names_index(planned, i);
                    if j < planned.len() {
                        assert(now[j] == planned[j]);
                    }
                }
                nothing_planned_twice(
                    table,
                    repos,
                    queue.drop_first() + needed(table, repos, planned, info.depends),
                    now,
                );
            },
            None => {
                nothing_planned_twice(table, repos, queue.drop_first(), planned);
            },
        }
    }
}

// ---------------------------------------------------------------------------
// Where planned packages come from

/// Whether a target is downloaded from the address at which the repositories
/// have what it asks for.
pub open spec fn is_located(repos: Seq<repo::RepoIndexView>, t: TargetView) -> bool {
    t.requested_name matches Some(n) && repo::package_location(repos, n) == Some(t.location)
        && t.source == t.location
}

/// What is needed for dependencies is downloaded from where the repositories
/// have it, is not installed, and is a dependency.
proof fn needed_is_located(
    table: Seq<database::InstalledView>,
    repos: Seq<repo::RepoIndexView>,
    planned: Seq<PlannedView>,
    depends: Seq<Seq<char>>,
    i: int,
)
    requires
        0 <= i < needed(table, repos, planned, depends).len(),
    ensures
        is_located(repos, needed(table, repos, planned, depends)[i]),
    decreases depends.len(),
{
    let rest = needed(table, repos, planned, depends.drop_last());
    if i < rest.len() {
        needed_is_located(table, repos, planned, depends.drop_last(), i);
    }
}

proof fn plan_is_located(
    table: Seq<database::InstalledView>,
    repos: Seq<repo::RepoIndexView>,
    initial: Seq<TargetView>,
    queue: Seq<TargetView>,
    planned: Seq<PlannedView>,
)
    requires
        forall|i: int|
            0 <= i < queue.len() ==> initial.contains(#[trigger] queue[i]) || is_located(
                repos,
                queue[i],
            ),
        forall|k: int|
            0 <= k < planned.len() ==> initial.contains((#[trigger] planned[k]).target)
                || is_located(repos, planned[k].target),
        forall|k: int|
            0 <= k < planned.len() ==> manager::installed_as(
                table,
                asked((#[trigger] planned[k]).target),
            ) is None,
    ensures
        forall|k: int|
            0 <= k < resolved(table, repos, queue, planned).len() ==> initial.contains(
                (#[trigger] resolved(table, repos, queue, planned)[k]).target,
            ) || is_located(repos, resolved(table, repos, queue, planned)[k].target),
        forall|k: int|
            0 <= k < resolved(table, repos, queue, planned).len() ==> manager::installed_as(
                table,
                asked((#[trigger] resolved(table, repos, queue, planned)[k]).target),
            ) is None,
    decreases unplanned(all_names(repos), names(planned)), queue.len(),
{
    if queue.len() > 0 {
        fresh_shrinks(table, repos, planned, queue[0]);
        let rest = queue.drop_first();
        assert forall|i: int| 0 <= i < rest.len() implies initial.contains(#[trigger] rest[i])
            || is_located(repos, rest[i]) by {
            assert(rest[i] == queue[i + 1]);
        }
        match fresh(table, repos, planned, queue[0]) {
            Some(info) => {
                let more = needed(table, repos, planned, info.depends);
                let all = rest + more;
                let now = planned.push(planned_as(queue[0], info));
                assert forall|i: int| 0 <= i < all.len() implies initial.contains(
                    #[trigger] all[i],
                ) || is_located(repos, all[i]) by {
                    if i < rest.len() {
                        assert(all[i] == rest[i]);
                    } else {
                        assert(all[i] == more[i - rest.len()]);
                        needed_is_located(table, repos, planned, info.depends, i - rest.len());
                    }
                }
                assert forall|k: int| 0 <= k < now.len() implies initial.contains(
                    (#[trigger] now[k]).target,
                ) || is_located(repos, now[k].target) by {
                    if k < planned.len() {
                        assert(now[k] == planned[k]);
                    } else {
                        assert(now[k].target == queue[0]);
                    }
                }
                assert forall|k: int| 0 <= k < now.len() implies manager::installed_as(
                    table,
                    asked((#[trigger] now[k]).target),
                ) is None by {
                    if k < planned.len() {
                        assert(now[k] == planned[k]);
                    }
                }
                plan_is_located(table, repos, initial, all, now);
            },
            None => {
                plan_is_located(table, repos, initial, rest, planned);
            },
        }
    }
}

/// Every package that is to be installed is one of the targets that were asked
/// for, or is downloaded from the very address at which the repositories have
/// the package that it is named after. None of them is installed already.
pub proof fn planned_packages_are_located(
    table: Seq<database::InstalledView>,
    repos: Seq<repo::RepoIndexView>,
    initial: Seq<TargetView>,
    order: Seq<int>,
    i: int,
)
    requires
        is_order(resolved(table, repos, initial, seq![]), order),
        0 <= i < order.len(),
    ensures
        ({
            let t = ordered(resolved(table, repos, initial, seq![]), order)[i];
            &&& initial.contains(t) || (t.requested_name matches Some(n) && repo::package_location(
                repos,
                n,
            ) == Some(t.location) && t.source == t.location)
            &&& manager::installed_as(
                table,
                kept(
                    match t.requested_name {
                        Some(n) => n,
                        None => t.source,
                    },
                ),
            ) is None
        }),
{
    let none: Seq<PlannedView> = seq![];
    let planned = resolved(table, repos, initial, none);
    plan_is_located(table, repos, initial, initial, none);
    assert(is_next(planned, placed_after(planned, order, i), order[i]));
    assert(planned[order[i]].target == ordered(planned, order)[i]);
}

proof fn plan_is_described(
    table: Seq<database::InstalledView>,
    repos: Seq<repo::RepoIndexView>,
    queue: Seq<TargetView>,
    planned: Seq<PlannedView>,
)
    requires
        forall|k: int| 0 <= k < planned.len() ==> is_described(repos, #[trigger] planned[k]),
    ensures
        forall|k: int|
            0 <= k < resolved(table, repos, queue, planned).len() ==> is_described(
                repos,
                #[trigger] resolved(table, repos, queue, planned)[k],
            ),
    decreases unplanned(all_names(repos), names(planned)), queue.len(),
{
    if queue.len() > 0 {
        fresh_shrinks(table, repos, planned, queue[0]);
        match fresh(table, repos, planned, queue[0]) {
            Some(info) => {
                let now = planned.push(planned_as(queue[0], info));
                assert forall|k: int| 0 <= k < now.len() implies is_described(
                    repos,
                    #[trigger] now[k],
                ) by {
                    if k < planned.len() {
                        assert(now[k] == planned[k]);
                    }
                }
                let rest = queue.drop_first() + needed(table, repos, planned, info.depends);
                plan_is_described(table, repos, rest, now);
                assert(resolved(table, repos, queue, planned) == resolved(table, repos, rest, now));
            },
            None => {
                plan_is_described(table, repos, queue.drop_first(), planned);
                assert(resolved(table, repos, queue, planned) == resolved(
                    table,
                    repos,
                    queue.drop_first(),
                    planned,
                ));
            },
        }
    }
}

/// Whether a planned package has the name and the dependencies that the
/// repositories give for what its target asks for.
pub open spec fn is_described(repos: Seq<repo::RepoIndexView>, p: PlannedView) -> bool {
    repo::package_info(repos, asked(p.target)) matches Some(info) && p.name == repo::canonical(
        info.name,
    ) && p.depends.len() == info.depends.len() && (forall|d: int|
        0 <= d < info.depends.len() ==> #[trigger] p.depends[d] == pkg_utils::dependency_name(
            info.depends[d],
        ))
}

/// Every planned package has the name and the dependencies that the
/// repositories give for what its target asks for.
pub proof fn planned_packages_are_described(
    table: Seq<database::InstalledView>,
    repos: Seq<repo::RepoIndexView>,
    initial: Seq<TargetView>,
    k: int,
)
    requires
        0 <= k < resolved(table, repos, initial, seq![]).len(),
    ensures
        ({
            let p = resolved(table, repos, initial, seq![])[k];
            let name = kept(
                match p.target.requested_name {
                    Some(n) => n,
                    None => p.target.source,
                },
            );
            repo::package_info(repos, name) matches Some(info) && p.name == repo::canonical(
                info.name,
            ) && p.depends.len() == info.depends.len() && (forall|d: int|
                0 <= d < info.depends.len() ==> #[trigger] p.depends[d]
                    == pkg_utils::dependency_name(info.depends[d]))
        }),
{
    let none: Seq<PlannedView> = seq![];
    plan_is_described(table, repos, initial, none);
    assert(is_described(repos, resolved(table, repos, initial, none)[k]));
}

/// An essential package that needs no other planned package is placed before
/// every package that is not essential.
pub proof fn essentials_come_first(planned: Seq<PlannedView>, order: Seq<int>, i: int, j: int)
    requires
        is_order(planned, order),
        0 <= i < order.len(),
        0 <= j < order.len(),
        bootstrap_essentials().contains(planned[order[j]].name),
        !bootstrap_essentials().contains(planned[order[i]].name),
        forall|d: int|
            0 <= d < planned[order[j]].depends.len() ==> !names(planned).contains(
                kept(#[trigger] planned[order[j]].depends[d]),
            ),
    ensures
        j < i,
{
    let placed = placed_after(planned, order, i);
    assert(is_next(planned, placed, order[i]));
    assert(is_next(planned, placed_after(planned, order, j), order[j]));
    if i < j {
        let k = order[j];
        assert(!placed.contains(planned[k].name)) by {
            if placed.contains(planned[k].name) {
                let m = choose|m: int| 0 <= m < placed.len() && placed[m] == planned[k].name;
                assert(planned[order[m]].name == planned[k].name);
                order_places_once(planned, order, m, j);
            }
        }
        waits_for_none(names(planned), placed, planned[k].name, planned[k].depends);
        assert(remaining(planned, placed, k) == 0);
        assert(planned[k].name != planned[order[i]].name);
    }
}

proof fn waits_for_none(
    all: Seq<Seq<char>>,
    placed: Seq<Seq<char>>,
    own: Seq<char>,
    depends: Seq<Seq<char>>,
)
    requires
        forall|d: int| 0 <= d < depends.len() ==> !all.contains(kept(#[trigger] depends[d])),
    ensures
        waiting(all, placed, own, depends) == 0,
    decreases depends.len(),
{
    if depends.len() > 0 {
        let init = depends.drop_last();
        assert forall|d: int| 0 <= d < init.len() implies !all.contains(
            kept(#[trigger] init[d]),
        ) by {
            assert(init[d] == depends[d]);
        }
        waits_for_none(all, placed, own, init);
        assert(depends[depends.len() - 1] == depends.last());
    }
}

/// Of two packages that need no other planned package, and of which both are
/// essential or neither is, the one whose name comes first is placed first.
pub proof fn names_decide(planned: Seq<PlannedView>, order: Seq<int>, i: int, j: int)
    requires
        is_order(planned, order),
        0 <= i < order.len(),
        0 <= j < order.len(),
        bootstrap_essentials().contains(planned[order[i]].name) == bootstrap_essentials().contains(
            planned[order[j]].name,
        ),
        forall|d: int|
            0 <= d < planned[order[i]].depends.len() ==> !names(planned).contains(
                kept(#[trigger] planned[order[i]].depends[d]),
            ),
        forall|d: int|
            0 <= d < planned[order[j]].depends.len() ==> !names(planned).contains(
                kept(#[trigger] planned[order[j]].depends[d]),
            ),
        text::text_less(planned[order[i]].name, planned[order[j]].name),
    ensures
        i < j,
{
    let a = order[i];
    let b = order[j];
    text::text_less_asymmetric(planned[a].name, planned[b].name);
    assert(is_next(planned, placed_after(planned, order, i), a));
    assert(is_next(planned, placed_after(planned, order, j), b));
    if j < i {
        let placed = placed_after(planned, order, j);
        assert(!placed.contains(planned[a].name)) by {
            if placed.contains(planned[a].name) {
                let m = choose|m: int| 0 <= m < placed.len() && placed[m] == planned[a].name;
                assert(planned[order[m]].name == planned[a].name);
                order_places_once(planned, order, m, i);
            }
        }
        waits_for_none(names(planned), placed, planned[a].name, planned[a].depends);
        waits_for_none(names(planned), placed, planned[b].name, planned[b].depends);
        assert(planned[a].name != planned[b].name);
        assert(remaining(planned, placed, a) == 0);
        assert(remaining(planned, placed, b) == 0);
    }
}

} // verus!

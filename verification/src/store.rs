//! The hosts and their compose directories, as the user configured them:
//! look-up by id, insert-or-replace, removal, and the edits of a host's
//! directories. Persisting the list is left to the caller.
use vstd::prelude::*;
use vstd::string::*;
use crate::text::{chars_of, last_index_in, last_index_of, same_text};
use crate::model::{dirs_view, hosts_view, ComposeDir, ComposeDirView, HostConfig, HostConfigView};

verus! {

/// Why a request about a host or one of its directories was refused.
#[derive(Debug, Clone, Copy, PartialEq, Eq, Structural)]
pub enum StoreError {
    UnknownHost,
    UnknownComposeDir,
}

impl StoreError {
    pub open spec fn spec_message(self) -> Seq<char> {
        match self {
            StoreError::UnknownHost => "unknown host"@,
            StoreError::UnknownComposeDir => "unknown compose dir"@,
        }
    }

    /// The message shown to the user.
    pub fn message(&self) -> (r: String)
        ensures
            r@ == self.spec_message(),
    {
        match self {
            StoreError::UnknownHost => "unknown host".to_owned(),
            StoreError::UnknownComposeDir => "unknown compose dir".to_owned(),
        }
    }
}

/// The configured hosts, in the order they were added.
pub struct HostStore {
    hosts: Vec<HostConfig>,
}

impl View for HostStore {
    type V = Seq<HostConfigView>;

    closed spec fn view(&self) -> Seq<HostConfigView> {
        hosts_view(self.hosts@)
    }
}

// ---------------------------------------------------------------------
// Specifications
// ---------------------------------------------------------------------

/// The position of the first host with id `id`.
pub open spec fn host_index(hs: Seq<HostConfigView>, id: Seq<char>) -> Option<int>
    decreases hs.len(),
{
    if hs.len() == 0 {
        None
    } else {
        match host_index(hs.drop_last(), id) {
            Some(i) => Some(i),
            None => if hs.last().id == id {
                Some(hs.len() - 1)
            } else {
                None
            },
        }
    }
}

/// The first host with id `id`.
pub open spec fn spec_get(hs: Seq<HostConfigView>, id: Seq<char>) -> Option<HostConfigView> {
    match host_index(hs, id) {
        Some(i) => Some(hs[i]),
        None => None,
    }
}

/// `h` in place of the first host with its id, or added at the end.
pub open spec fn spec_upsert(hs: Seq<HostConfigView>, h: HostConfigView) -> Seq<HostConfigView> {
    match host_index(hs, h.id) {
        Some(i) => hs.update(i, h),
        None => hs.push(h),
    }
}

/// The hosts whose id is not `id`, in order.
pub open spec fn spec_remove(hs: Seq<HostConfigView>, id: Seq<char>) -> Seq<HostConfigView>
    decreases hs.len(),
{
    if hs.len() == 0 {
        Seq::empty()
    } else {
        let r = spec_remove(hs.drop_last(), id);
        if hs.last().id == id {
            r
        } else {
            r.push(hs.last())
        }
    }
}

/// No two hosts share an id.
pub open spec fn unique_ids(hs: Seq<HostConfigView>) -> bool {
    forall|i: int, j: int| 0 <= i < j < hs.len() ==> hs[i].id != hs[j].id
}

/// The first directory with id `id`.
pub open spec fn dir_index(ds: Seq<ComposeDirView>, id: Seq<char>) -> Option<int>
    decreases ds.len(),
{
    if ds.len() == 0 {
        None
    } else {
        match dir_index(ds.drop_last(), id) {
            Some(i) => Some(i),
            None => if ds.last().id == id {
                Some(ds.len() - 1)
            } else {
                None
            },
        }
    }
}

/// The directories whose id is not `id`, in order.
pub open spec fn dirs_without(ds: Seq<ComposeDirView>, id: Seq<char>) -> Seq<ComposeDirView>
    decreases ds.len(),
{
    if ds.len() == 0 {
        Seq::empty()
    } else {
        let r = dirs_without(ds.drop_last(), id);
        if ds.last().id == id {
            r
        } else {
            r.push(ds.last())
        }
    }
}

/// The last `/`-separated segment of a path (all of it without a `/`).
pub open spec fn last_segment(path: Seq<char>) -> Seq<char> {
    match last_index_of(path, '/') {
        Some(i) => path.skip(i + 1),
        None => path,
    }
}

/// The directory added for `path`: its id is the path, its label the given
/// one, or the last segment of the path when none is given.
pub open spec fn new_dir(path: Seq<char>, label: Seq<char>) -> ComposeDirView {
    ComposeDirView {
        id: path,
        path,
        label: if label.len() == 0 {
            last_segment(path)
        } else {
            label
        },
    }
}

/// The host added for an ssh alias: its id is the alias, its label the
/// given one, or the alias when none is given.
pub open spec fn new_host(ssh_alias: Seq<char>, label: Seq<char>) -> HostConfigView {
    HostConfigView {
        id: ssh_alias,
        ssh_alias,
        label: if label.len() == 0 {
            ssh_alias
        } else {
            label
        },
        compose_dirs: Seq::empty(),
    }
}

/// `d` in place of the first directory with its id, or added at the end.
pub open spec fn dirs_with(ds: Seq<ComposeDirView>, d: ComposeDirView) -> Seq<ComposeDirView> {
    match dir_index(ds, d.id) {
        Some(k) => ds.update(k, d),
        None => ds.push(d),
    }
}

/// No two directories share an id.
pub open spec fn unique_dir_ids(ds: Seq<ComposeDirView>) -> bool {
    forall|i: int, j: int| 0 <= i < j < ds.len() ==> ds[i].id != ds[j].id
}

/// A host with new directories.
pub open spec fn with_dirs(h: HostConfigView, ds: Seq<ComposeDirView>) -> HostConfigView {
    HostConfigView { compose_dirs: ds, ..h }
}

/// The number of directories of all the hosts together.
pub open spec fn dir_count(hs: Seq<HostConfigView>) -> nat
    decreases hs.len(),
{
    if hs.len() == 0 {
        0
    } else {
        dir_count(hs.drop_last()) + hs.last().compose_dirs.len()
    }
}

/// Every stack of every host, host by host, each paired with its host.
pub open spec fn all_stacks(hs: Seq<HostConfigView>) -> Seq<(HostConfigView, ComposeDirView)>
    decreases hs.len(),
{
    if hs.len() == 0 {
        Seq::empty()
    } else {
        all_stacks(hs.drop_last()) + hs.last().compose_dirs.map_values(
            |d: ComposeDirView| (hs.last(), d),
        )
    }
}

// ---------------------------------------------------------------------
// Properties
// ---------------------------------------------------------------------

/// `host_index` names the first host with the id, or there is none.
pub proof fn lemma_host_index(hs: Seq<HostConfigView>, id: Seq<char>)
    ensures
        host_index(hs, id) matches Some(i) ==> 0 <= i < hs.len() && hs[i].id == id && forall|
            j: int,
        | 0 <= j < i ==> #[trigger] hs[j].id != id,
        host_index(hs, id) is None ==> forall|j: int| 0 <= j < hs.len() ==> #[trigger] hs[j].id
            != id,
    decreases hs.len(),
{
    if hs.len() > 0 {
        let p = hs.drop_last();
        lemma_host_index(p, id);
        assert forall|j: int| 0 <= j < p.len() implies p[j] == hs[j] by {}
    }
}

/// Two sequences that agree on which positions hold the id have the same
/// first such position.
proof fn lemma_host_index_same(a: Seq<HostConfigView>, b: Seq<HostConfigView>, id: Seq<char>)
    requires
        a.len() == b.len(),
        forall|j: int| 0 <= j < a.len() ==> (a[j].id == id) == (b[j].id == id),
    ensures
        host_index(a, id) == host_index(b, id),
{
    lemma_host_index(a, id);
    lemma_host_index(b, id);
    match (host_index(a, id), host_index(b, id)) {
        (Some(i), Some(k)) => {
            if i < k {
                assert(b[i].id != id);
            } else if k < i {
                assert(a[k].id != id);
            }
        },
        (Some(i), None) => {
            assert(b[i].id != id);
        },
        (None, Some(k)) => {
            assert(a[k].id != id);
        },
        (None, None) => {},
    }
}

/// After an upsert of `h`, its id is found where it was put.
proof fn lemma_index_after_upsert(hs: Seq<HostConfigView>, h: HostConfigView)
    ensures
        host_index(spec_upsert(hs, h), h.id) == Some(
            match host_index(hs, h.id) {
                Some(i) => i,
                None => hs.len() as int,
            },
        ),
{
    lemma_host_index(hs, h.id);
    let ns = spec_upsert(hs, h);
    lemma_host_index(ns, h.id);
    match host_index(hs, h.id) {
        Some(i) => {
            match host_index(ns, h.id) {
                Some(k) => {
                    if k < i {
                        assert(ns[k] == hs[k]);
                    } else if i < k {
                        assert(ns[i].id == h.id);
                    }
                },
                None => {
                    assert(ns[i].id == h.id);
                },
            }
        },
        None => {
            assert(ns.drop_last() =~= hs);
        },
    }
}

/// Looking up in a sequence with one more host at the end.
proof fn lemma_get_push(hs: Seq<HostConfigView>, x: HostConfigView, id: Seq<char>)
    ensures
        spec_get(hs.push(x), id) == match spec_get(hs, id) {
            Some(v) => Some(v),
            None => if x.id == id {
                Some(x)
            } else {
                None
            },
        },
{
    let ns = hs.push(x);
    assert(ns.drop_last() =~= hs);
    lemma_host_index(hs, id);
}

/// Law: after an upsert of `h`, looking up its id gives `h`.
pub proof fn law_get_after_upsert(hs: Seq<HostConfigView>, h: HostConfigView)
    ensures
        spec_get(spec_upsert(hs, h), h.id) == Some(h),
{
    lemma_index_after_upsert(hs, h);
    lemma_host_index(hs, h.id);
}

/// Law: an upsert of `h` changes the look-up of no other id.
pub proof fn law_upsert_keeps_other_hosts(hs: Seq<HostConfigView>, h: HostConfigView, id: Seq<char>)
    requires
        id != h.id,
    ensures
        spec_get(spec_upsert(hs, h), id) == spec_get(hs, id),
{
    let ns = spec_upsert(hs, h);
    lemma_host_index(hs, h.id);
    lemma_host_index(hs, id);
    match host_index(hs, h.id) {
        Some(i) => {
            assert forall|j: int| 0 <= j < hs.len() implies (hs[j].id == id) == (ns[j].id == id) by {
                if j == i {
                    assert(hs[i].id == h.id);
                }
            }
            lemma_host_index_same(hs, ns, id);
            if let Some(k) = host_index(hs, id) {
                assert(k != i);
            }
        },
        None => {
            lemma_get_push(hs, h, id);
        },
    }
}

/// Law: a second upsert of the same host changes nothing.
pub proof fn law_upsert_idempotent(hs: Seq<HostConfigView>, h: HostConfigView)
    ensures
        spec_upsert(spec_upsert(hs, h), h) == spec_upsert(hs, h),
{
    lemma_index_after_upsert(hs, h);
    let ns = spec_upsert(hs, h);
    match host_index(hs, h.id) {
        Some(i) => {
            lemma_host_index(hs, h.id);
            assert(ns.update(i, h) =~= ns);
        },
        None => {
            assert(ns.update(hs.len() as int, h) =~= ns);
        },
    }
}

/// Law: an upsert replaces one host or adds one.
pub proof fn law_upsert_length(hs: Seq<HostConfigView>, h: HostConfigView)
    ensures
        spec_upsert(hs, h).len() == hs.len() + (if host_index(hs, h.id) is Some {
            0int
        } else {
            1int
        }),
{
    lemma_host_index(hs, h.id);
}

/// Every host left by a removal was there, and none has the removed id.
proof fn lemma_remove_members(hs: Seq<HostConfigView>, id: Seq<char>)
    ensures
        forall|k: int| 0 <= k < spec_remove(hs, id).len() ==> hs.contains(
            #[trigger] spec_remove(hs, id)[k],
        ) && spec_remove(hs, id)[k].id != id,
    decreases hs.len(),
{
    if hs.len() > 0 {
        let p = hs.drop_last();
        lemma_remove_members(p, id);
        let r = spec_remove(hs, id);
        assert forall|k: int| 0 <= k < r.len() implies hs.contains(#[trigger] r[k]) && r[k].id
            != id by {
            if k < spec_remove(p, id).len() {
                assert(r[k] == spec_remove(p, id)[k]);
                let m = choose|m: int| 0 <= m < p.len() && p[m] == r[k];
                assert(hs[m] == p[m]);
            } else {
                assert(r[k] == hs.last());
                assert(hs[hs.len() - 1] == hs.last());
            }
        }
    }
}

/// Law: after a removal of `id`, no host has it, and every other id is
/// looked up as before.
pub proof fn law_get_after_remove(hs: Seq<HostConfigView>, id: Seq<char>, other: Seq<char>)
    requires
        other != id,
    ensures
        spec_get(spec_remove(hs, id), id) is None,
        spec_get(spec_remove(hs, id), other) == spec_get(hs, other),
    decreases hs.len(),
{
    lemma_remove_members(hs, id);
    lemma_host_index(spec_remove(hs, id), id);
    if hs.len() > 0 {
        let p = hs.drop_last();
        law_get_after_remove(p, id, other);
        let r = spec_remove(p, id);
        assert(hs =~= p.push(hs.last()));
        lemma_get_push(p, hs.last(), other);
        if hs.last().id != id {
            lemma_get_push(r, hs.last(), other);
        }
    }
}

/// Removal only looks at the hosts that it keeps.
proof fn lemma_remove_agree(a: Seq<HostConfigView>, b: Seq<HostConfigView>, id: Seq<char>)
    requires
        a.len() == b.len(),
        forall|j: int| 0 <= j < a.len() ==> (#[trigger] a[j].id == id) == (b[j].id == id),
        forall|j: int| 0 <= j < a.len() && a[j].id != id ==> #[trigger] a[j] == b[j],
    ensures
        spec_remove(a, id) == spec_remove(b, id),
    decreases a.len(),
{
    if a.len() > 0 {
        let (pa, pb) = (a.drop_last(), b.drop_last());
        assert forall|j: int| 0 <= j < pa.len() implies (#[trigger] pa[j].id == id) == (pb[j].id == id) by {
            assert(pa[j] == a[j] && pb[j] == b[j]);
        }
        assert forall|j: int| 0 <= j < pa.len() && pa[j].id != id implies #[trigger] pa[j] == pb[j] by {
            assert(pa[j] == a[j] && pb[j] == b[j]);
        }
        lemma_remove_agree(pa, pb, id);
        assert(a.last() == a[a.len() - 1] && b.last() == b[b.len() - 1]);
    }
}

/// Law: removing a host's id after an upsert of it leaves what removing
/// the id would have left before; in particular, removing a host that was
/// just added (its id new) gives back the hosts as they were.
pub proof fn law_remove_undoes_upsert(hs: Seq<HostConfigView>, h: HostConfigView)
    ensures
        spec_remove(spec_upsert(hs, h), h.id) == spec_remove(hs, h.id),
        host_index(hs, h.id) is None ==> spec_remove(spec_upsert(hs, h), h.id) == hs,
{
    lemma_host_index(hs, h.id);
    let ns = spec_upsert(hs, h);
    match host_index(hs, h.id) {
        Some(i) => {
            lemma_remove_agree(ns, hs, h.id);
        },
        None => {
            assert(ns.drop_last() =~= hs);
            lemma_remove_absent(hs, h.id);
        },
    }
}

/// Removing an id that no host has changes nothing.
proof fn lemma_remove_absent(hs: Seq<HostConfigView>, id: Seq<char>)
    requires
        forall|j: int| 0 <= j < hs.len() ==> #[trigger] hs[j].id != id,
    ensures
        spec_remove(hs, id) == hs,
    decreases hs.len(),
{
    if hs.len() > 0 {
        let p = hs.drop_last();
        assert forall|j: int| 0 <= j < p.len() implies #[trigger] p[j].id != id by {
            assert(p[j] == hs[j]);
        }
        lemma_remove_absent(p, id);
        assert(hs[hs.len() - 1] == hs.last());
        assert(p.push(hs.last()) =~= hs);
    }
}

/// Law: removal and upsert keep the ids unique.
pub proof fn law_unique_ids_kept(hs: Seq<HostConfigView>, h: HostConfigView, id: Seq<char>)
    requires
        unique_ids(hs),
    ensures
        unique_ids(spec_upsert(hs, h)),
        unique_ids(spec_remove(hs, id)),
{
    lemma_host_index(hs, h.id);
    let ns = spec_upsert(hs, h);
    match host_index(hs, h.id) {
        Some(i) => {
            assert forall|a: int, b: int| 0 <= a < b < ns.len() implies ns[a].id != ns[b].id by {
                if a == i {
                    assert(hs[a].id == h.id);
                } else if b == i {
                    assert(hs[b].id == h.id);
                }
            }
        },
        None => {},
    }
    lemma_remove_unique(hs, id);
}

proof fn lemma_remove_unique(hs: Seq<HostConfigView>, id: Seq<char>)
    requires
        unique_ids(hs),
    ensures
        unique_ids(spec_remove(hs, id)),
    decreases hs.len(),
{
    if hs.len() > 0 {
        let p = hs.drop_last();
        assert(unique_ids(p)) by {
            assert forall|a: int, b: int| 0 <= a < b < p.len() implies p[a].id != p[b].id by {
                assert(p[a] == hs[a] && p[b] == hs[b]);
            }
        }
        lemma_remove_unique(p, id);
        lemma_remove_members(p, id);
        let r = spec_remove(p, id);
        if hs.last().id != id {
            let nr = r.push(hs.last());
            assert forall|a: int, b: int| 0 <= a < b < nr.len() implies nr[a].id != nr[b].id by {
                if b == r.len() {
                    assert(p.contains(r[a]));
                    let m = choose|m: int| 0 <= m < p.len() && p[m] == r[a];
                    assert(hs[m] == p[m]);
                    assert(hs[hs.len() - 1] == hs.last());
                }
            }
        }
    }
}

/// `dir_index` names the first directory with the id, or there is none.
pub proof fn lemma_dir_index(ds: Seq<ComposeDirView>, id: Seq<char>)
    ensures
        dir_index(ds, id) matches Some(i) ==> 0 <= i < ds.len() && ds[i].id == id,
        dir_index(ds, id) is None ==> forall|j: int| 0 <= j < ds.len() ==> #[trigger] ds[j].id
            != id,
    decreases ds.len(),
{
    if ds.len() > 0 {
        let p = ds.drop_last();
        lemma_dir_index(p, id);
        assert forall|j: int| 0 <= j < p.len() implies p[j] == ds[j] by {}
    }
}

/// Law: adding a directory keeps the directory ids of a host unique, the
/// new directory is there, and it is the only one with its id.
pub proof fn law_dir_ids_stay_unique(ds: Seq<ComposeDirView>, d: ComposeDirView)
    requires
        unique_dir_ids(ds),
    ensures
        unique_dir_ids(dirs_with(ds, d)),
        dirs_with(ds, d).contains(d),
        forall|j: int|
            0 <= j < dirs_with(ds, d).len() && (#[trigger] dirs_with(ds, d)[j]).id == d.id
                ==> dirs_with(ds, d)[j] == d,
{
    lemma_dir_index(ds, d.id);
    let ns = dirs_with(ds, d);
    match dir_index(ds, d.id) {
        Some(k) => {
            assert(ns[k] == d);
            assert forall|a: int, b: int| 0 <= a < b < ns.len() implies ns[a].id != ns[b].id by {
                if a == k {
                    assert(ds[k].id == d.id);
                } else if b == k {
                    assert(ds[k].id == d.id);
                }
            }
            assert forall|j: int| 0 <= j < ns.len() && (#[trigger] ns[j]).id == d.id implies ns[j]
                == d by {
                if j != k {
                    assert(ds[k].id == d.id);
                }
            }
        },
        None => {
            assert(ns[ds.len() as int] == d);
        },
    }
}

/// Law: removing a directory keeps the directory ids of a host unique.
pub proof fn law_dirs_without_keeps_unique(ds: Seq<ComposeDirView>, id: Seq<char>)
    requires
        unique_dir_ids(ds),
    ensures
        unique_dir_ids(dirs_without(ds, id)),
        forall|j: int| 0 <= j < dirs_without(ds, id).len() ==> (#[trigger] dirs_without(ds, id)[j]).id != id,
    decreases ds.len(),
{
    if ds.len() > 0 {
        let p = ds.drop_last();
        assert(unique_dir_ids(p)) by {
            assert forall|a: int, b: int| 0 <= a < b < p.len() implies p[a].id != p[b].id by {
                assert(p[a] == ds[a] && p[b] == ds[b]);
            }
        }
        law_dirs_without_keeps_unique(p, id);
        lemma_dirs_without_members(p, id);
        let r = dirs_without(p, id);
        if ds.last().id != id {
            let nr = r.push(ds.last());
            assert forall|a: int, b: int| 0 <= a < b < nr.len() implies nr[a].id != nr[b].id by {
                if b == r.len() {
                    let m = choose|m: int| 0 <= m < p.len() && p[m] == r[a];
                    assert(ds[m] == p[m]);
                    assert(ds[ds.len() - 1] == ds.last());
                }
            }
        }
    }
}

proof fn lemma_dirs_without_members(ds: Seq<ComposeDirView>, id: Seq<char>)
    ensures
        forall|k: int| 0 <= k < dirs_without(ds, id).len() ==> ds.contains(
            #[trigger] dirs_without(ds, id)[k],
        ),
    decreases ds.len(),
{
    if ds.len() > 0 {
        let p = ds.drop_last();
        lemma_dirs_without_members(p, id);
        let r = dirs_without(ds, id);
        assert forall|k: int| 0 <= k < r.len() implies ds.contains(#[trigger] r[k]) by {
            if k < dirs_without(p, id).len() {
                assert(r[k] == dirs_without(p, id)[k]);
                let m = choose|m: int| 0 <= m < p.len() && p[m] == r[k];
                assert(ds[m] == p[m]);
            } else {
                assert(ds[ds.len() - 1] == ds.last());
            }
        }
    }
}

/// `x` is a directory of one of the hosts, paired with that host.
pub open spec fn is_stack_of(hs: Seq<HostConfigView>, x: (HostConfigView, ComposeDirView)) -> bool {
    exists|i: int, k: int|
        #![trigger hs[i].compose_dirs[k]]
        0 <= i < hs.len() && 0 <= k < hs[i].compose_dirs.len() && x == (hs[i], hs[i].compose_dirs[k])
}

/// Law: every directory of every host is listed, paired with its host,
/// and nothing else: as many stacks as directories, even where two hosts
/// have a directory with the same path.
pub proof fn law_stacks_list_every_directory(hs: Seq<HostConfigView>)
    ensures
        all_stacks(hs).len() == dir_count(hs),
        forall|i: int, k: int|
            0 <= i < hs.len() && 0 <= k < hs[i].compose_dirs.len() ==> all_stacks(hs).contains(
                (hs[i], #[trigger] hs[i].compose_dirs[k]),
            ),
        forall|j: int|
            0 <= j < all_stacks(hs).len() ==> is_stack_of(hs, #[trigger] all_stacks(hs)[j]),
    decreases hs.len(),
{
    if hs.len() > 0 {
        let p = hs.drop_last();
        law_stacks_list_every_directory(p);
        let a = all_stacks(p);
        let h = hs.last();
        let b = h.compose_dirs.map_values(|d: ComposeDirView| (h, d));
        let all = all_stacks(hs);
        assert(all == a + b);
        assert forall|i: int, k: int|
            0 <= i < hs.len() && 0 <= k < hs[i].compose_dirs.len() implies all.contains(
                (hs[i], #[trigger] hs[i].compose_dirs[k]),
            ) by {
            if i < hs.len() - 1 {
                assert(p[i] == hs[i]);
                assert(p[i].compose_dirs[k] == hs[i].compose_dirs[k]);
                assert(a.contains((p[i], p[i].compose_dirs[k])));
                let m = choose|m: int| 0 <= m < a.len() && a[m] == (p[i], p[i].compose_dirs[k]);
                assert(all[m] == a[m]);
            } else {
                assert(hs[i] == h);
                assert(all[a.len() + k] == b[k]);
            }
        }
        assert forall|j: int| 0 <= j < all.len() implies is_stack_of(hs, #[trigger] all[j]) by {
            if j < a.len() {
                assert(all[j] == a[j]);
                assert(is_stack_of(p, a[j]));
                let (i, k) = choose|i: int, k: int|
                    #![trigger p[i].compose_dirs[k]]
                    0 <= i < p.len() && 0 <= k < p[i].compose_dirs.len() && a[j] == (
                        p[i],
                        p[i].compose_dirs[k],
                    );
                assert(p[i] == hs[i]);
                assert(p[i].compose_dirs[k] == hs[i].compose_dirs[k]);
            } else {
                let k = j - a.len();
                assert(all[j] == b[k]);
                assert(hs[hs.len() - 1] == h);
                assert(all[j] == (hs[hs.len() - 1], hs[hs.len() - 1].compose_dirs[k]));
            }
        }
    }
}

// ---------------------------------------------------------------------
// Executable operations
// ---------------------------------------------------------------------

/// The position of the first host with id `id`.
fn find_host(hosts: &Vec<HostConfig>, id: &str) -> (r: Option<usize>)
    ensures
        r matches Some(i) ==> host_index(hosts_view(hosts@), id@) == Some(i as int) && i
            < hosts.len(),
        r is None ==> host_index(hosts_view(hosts@), id@) is None,
{
    let ghost hs = hosts_view(hosts@);
    let mut i: usize = 0;
    while i < hosts.len()
        invariant
            i <= hosts.len(),
            hs == hosts_view(hosts@),
            host_index(hs.take(i as int), id@) is None,
        decreases hosts.len() - i,
    {
        assert(hs.take(i + 1).drop_last() =~= hs.take(i as int));
        assert(hs.take(i + 1).last() == hosts@[i as int]@);
        if same_text(hosts[i].id.as_str(), id) {
            proof {
                lemma_prefix_index(hs, id@, (i + 1) as int);
            }
            return Some(i);
        }
        i = i + 1;
    }
    assert(hs.take(hosts.len() as int) =~= hs);
    None
}

/// A first match in a prefix is the first match in the whole.
proof fn lemma_prefix_index(hs: Seq<HostConfigView>, id: Seq<char>, n: int)
    requires
        0 <= n <= hs.len(),
        host_index(hs.take(n), id) is Some,
    ensures
        host_index(hs, id) == host_index(hs.take(n), id),
    decreases hs.len() - n,
{
    if n < hs.len() {
        assert(hs.take(n + 1).drop_last() =~= hs.take(n));
        lemma_prefix_index(hs, id, n + 1);
    } else {
        assert(hs.take(n) =~= hs);
    }
}

/// The position of the first directory with id `id`.
fn find_dir(dirs: &Vec<ComposeDir>, id: &str) -> (r: Option<usize>)
    ensures
        r matches Some(i) ==> dir_index(dirs_view(dirs@), id@) == Some(i as int) && i
            < dirs.len(),
        r is None ==> dir_index(dirs_view(dirs@), id@) is None,
{
    let ghost ds = dirs_view(dirs@);
    let mut i: usize = 0;
    while i < dirs.len()
        invariant
            i <= dirs.len(),
            ds == dirs_view(dirs@),
            dir_index(ds.take(i as int), id@) is None,
        decreases dirs.len() - i,
    {
        assert(ds.take(i + 1).drop_last() =~= ds.take(i as int));
        assert(ds.take(i + 1).last() == dirs@[i as int]@);
        if same_text(dirs[i].id.as_str(), id) {
            proof {
                lemma_prefix_dir_index(ds, id@, (i + 1) as int);
            }
            return Some(i);
        }
        i = i + 1;
    }
    assert(ds.take(dirs.len() as int) =~= ds);
    None
}

proof fn lemma_prefix_dir_index(ds: Seq<ComposeDirView>, id: Seq<char>, n: int)
    requires
        0 <= n <= ds.len(),
        dir_index(ds.take(n), id) is Some,
    ensures
        dir_index(ds, id) == dir_index(ds.take(n), id),
    decreases ds.len() - n,
{
    if n < ds.len() {
        assert(ds.take(n + 1).drop_last() =~= ds.take(n));
        lemma_prefix_dir_index(ds, id, n + 1);
    } else {
        assert(ds.take(n) =~= ds);
    }
}

/// The last `/`-separated segment of `path` (`path.rsplit('/').next()`).
pub fn last_path_segment(path: &str) -> (r: String)
    ensures
        r@ == last_segment(path@),
{
    let v = chars_of(path);
    let n = v.len();
    assert(v@.take(n as int) =~= v@);
    match last_index_in(&v, n, '/') {
        Some(i) => {
            let s = path.substring_char(i + 1, n);
            assert(s@ =~= path@.skip(i + 1));
            s.to_owned()
        },
        None => path.to_owned(),
    }
}

impl HostStore {
    /// A store holding `hosts`, in that order.
    pub fn new(hosts: Vec<HostConfig>) -> (s: Self)
        ensures
            s@ == hosts_view(hosts@),
    {
        HostStore { hosts }
    }

    /// A copy of every host, in order.
    pub fn list(&self) -> (r: Vec<HostConfig>)
        ensures
            hosts_view(r@) == self@,
    {
        let mut r: Vec<HostConfig> = Vec::new();
        let mut i: usize = 0;
        while i < self.hosts.len()
            invariant
                i <= self.hosts.len(),
                hosts_view(r@) == hosts_view(self.hosts@.take(i as int)),
            decreases self.hosts.len() - i,
        {
            let ghost before = r@;
            let c = self.hosts[i].clone();
            r.push(c);
            assert(self.hosts@.take(i + 1) =~= self.hosts@.take(i as int).push(self.hosts@[i as int]));
            assert(hosts_view(r@) =~= hosts_view(before).push(c@));
            assert(hosts_view(self.hosts@.take(i + 1)) =~= hosts_view(self.hosts@.take(i as int)).push(self.hosts@[i as int]@));
            i = i + 1;
        }
        assert(self.hosts@.take(self.hosts.len() as int) =~= self.hosts@);
        r
    }

    /// A copy of the first host with id `id`.
    pub fn get(&self, id: &str) -> (r: Option<HostConfig>)
        ensures
            match r {
                Some(h) => spec_get(self@, id@) == Some(h@),
                None => spec_get(self@, id@) is None,
            },
    {
        match find_host(&self.hosts, id) {
            Some(i) => Some(self.hosts[i].clone()),
            None => None,
        }
    }

    /// Puts `host` in place of the first host with its id, or adds it at
    /// the end when there is none.
    pub fn upsert(&mut self, host: HostConfig)
        ensures
            final(self)@ == spec_upsert(old(self)@, host@),
    {
        let ghost hv = host@;
        match find_host(&self.hosts, host.id.as_str()) {
            Some(i) => {
                self.hosts.set(i, host);
                assert(hosts_view(self.hosts@) =~= spec_upsert(old(self)@, hv));
            },
            None => {
                self.hosts.push(host);
                assert(hosts_view(self.hosts@) =~= spec_upsert(old(self)@, hv));
            },
        }
    }

    /// Removes every host with id `id`.
    pub fn remove(&mut self, id: &str)
        ensures
            final(self)@ == spec_remove(old(self)@, id@),
    {
        let ghost hs = self@;
        let mut kept: Vec<HostConfig> = Vec::new();
        let mut rest: Vec<HostConfig> = Vec::new();
        std::mem::swap(&mut rest, &mut self.hosts);
        assert(hosts_view(rest@) == hs);
        let mut i: usize = 0;
        while i < rest.len()
            invariant
                i <= rest.len(),
                hosts_view(rest@) == hs,
                hosts_view(kept@) == spec_remove(hs.take(i as int), id@),
            decreases rest.len() - i,
        {
            assert(hs.take(i + 1).drop_last() =~= hs.take(i as int));
            assert(hs.take(i + 1).last() == rest@[i as int]@);
            if !same_text(rest[i].id.as_str(), id) {
                let ghost before = kept@;
                let c = rest[i].clone();
                kept.push(c);
                assert(hosts_view(kept@) =~= hosts_view(before).push(c@));
            }
            i = i + 1;
        }
        assert(hs.take(rest.len() as int) =~= hs);
        self.hosts = kept;
    }

    /// Replaces the whole list at once.
    pub fn replace_all(&mut self, hosts: Vec<HostConfig>)
        ensures
            final(self)@ == hosts_view(hosts@),
    {
        self.hosts = hosts;
    }

    /// Adds (or replaces) the host of an ssh alias: its id is the alias, an
    /// empty label becomes the alias, and it has no compose directories yet.
    pub fn add_host(&mut self, ssh_alias: String, label: String)
        ensures
            final(self)@ == spec_upsert(old(self)@, new_host(ssh_alias@, label@)),
    {
        let label = if label.as_str().is_empty() {
            ssh_alias.clone()
        } else {
            label
        };
        let host = HostConfig {
            id: ssh_alias.clone(),
            ssh_alias,
            label,
            compose_dirs: Vec::new(),
        };
        assert(dirs_view(host.compose_dirs@) =~= Seq::<ComposeDirView>::empty());
        self.upsert(host);
    }

    /// Adds the directory `path` to the host `host_id`; an empty label
    /// becomes the last segment of the path. A directory with the same id
    /// (the path) is replaced in place, so directory ids stay unique.
    pub fn add_compose_dir(&mut self, host_id: &str, path: String, label: String) -> (r: Result<
        (),
        StoreError,
    >)
        ensures
            match spec_get(old(self)@, host_id@) {
                None => r == Err::<(), StoreError>(StoreError::UnknownHost) && final(self)@ == old(
                    self,
                )@,
                Some(h) => r is Ok && final(self)@ == spec_upsert(
                    old(self)@,
                    with_dirs(h, dirs_with(h.compose_dirs, new_dir(path@, label@))),
                ),
            },
    {
        let mut host = match self.get(host_id) {
            Some(h) => h,
            None => return Err(StoreError::UnknownHost),
        };
        proof {
            lemma_host_index(self@, host_id@);
        }
        let label = if label.as_str().is_empty() {
            last_path_segment(path.as_str())
        } else {
            label
        };
        let ghost before = dirs_view(host.compose_dirs@);
        let found = find_dir(&host.compose_dirs, path.as_str());
        let dir = ComposeDir { id: path.clone(), path, label };
        let ghost dv = dir@;
        proof {
            lemma_dir_index(before, dv.id);
        }
        match found {
            Some(k) => {
                host.compose_dirs.set(k, dir);
                assert(dirs_view(host.compose_dirs@) =~= before.update(k as int, dv));
            },
            None => {
                host.compose_dirs.push(dir);
                assert(dirs_view(host.compose_dirs@) =~= before.push(dv));
            },
        }
        self.upsert(host);
        Ok(())
    }

    /// Removes every directory with id `dir_id` from the host `host_id`.
    pub fn remove_compose_dir(&mut self, host_id: &str, dir_id: &str) -> (r: Result<(), StoreError>)
        ensures
            match spec_get(old(self)@, host_id@) {
                None => r == Err::<(), StoreError>(StoreError::UnknownHost) && final(self)@ == old(
                    self,
                )@,
                Some(h) => r is Ok && final(self)@ == spec_upsert(
                    old(self)@,
                    with_dirs(h, dirs_without(h.compose_dirs, dir_id@)),
                ),
            },
    {
        let host = match self.get(host_id) {
            Some(h) => h,
            None => return Err(StoreError::UnknownHost),
        };
        proof {
            lemma_host_index(self@, host_id@);
        }
        let ghost ds = dirs_view(host.compose_dirs@);
        let mut kept: Vec<ComposeDir> = Vec::new();
        let mut i: usize = 0;
        while i < host.compose_dirs.len()
            invariant
                i <= host.compose_dirs.len(),
                ds == dirs_view(host.compose_dirs@),
                dirs_view(kept@) == dirs_without(ds.take(i as int), dir_id@),
            decreases host.compose_dirs.len() - i,
        {
            assert(ds.take(i + 1).drop_last() =~= ds.take(i as int));
            assert(ds.take(i + 1).last() == host.compose_dirs@[i as int]@);
            if !same_text(host.compose_dirs[i].id.as_str(), dir_id) {
                let ghost before = kept@;
                let c = host.compose_dirs[i].clone();
                kept.push(c);
                assert(dirs_view(kept@) =~= dirs_view(before).push(c@));
            }
            i = i + 1;
        }
        assert(ds.take(host.compose_dirs.len() as int) =~= ds);
        let updated = HostConfig {
            id: host.id,
            ssh_alias: host.ssh_alias,
            label: host.label,
            compose_dirs: kept,
        };
        self.upsert(updated);
        Ok(())
    }

    /// The host `host_id` and its directory `dir_id`.
    pub fn find_stack(&self, host_id: &str, dir_id: &str) -> (r: Result<
        (HostConfig, ComposeDir),
        StoreError,
    >)
        ensures
            match spec_get(self@, host_id@) {
                None => r == Err::<(HostConfig, ComposeDir), StoreError>(StoreError::UnknownHost),
                Some(h) => match dir_index(h.compose_dirs, dir_id@) {
                    None => r == Err::<(HostConfig, ComposeDir), StoreError>(
                        StoreError::UnknownComposeDir,
                    ),
                    Some(k) => r matches Ok((host, dir)) && host@ == h && dir@ == h.compose_dirs[k],
                },
            },
    {
        let host = match self.get(host_id) {
            Some(h) => h,
            None => return Err(StoreError::UnknownHost),
        };
        match find_dir(&host.compose_dirs, dir_id) {
            Some(k) => {
                let dir = host.compose_dirs[k].clone();
                Ok((host, dir))
            },
            None => Err(StoreError::UnknownComposeDir),
        }
    }

    /// Every stack of every host, host by host, each with a copy of its host.
    pub fn stacks(&self) -> (r: Vec<(HostConfig, ComposeDir)>)
        ensures
            r@.map_values(|p: (HostConfig, ComposeDir)| (p.0@, p.1@)) == all_stacks(self@),
    {
        let ghost hs = self@;
        let mut r: Vec<(HostConfig, ComposeDir)> = Vec::new();
        let mut i: usize = 0;
        while i < self.hosts.len()
            invariant
                i <= self.hosts.len(),
                hs == hosts_view(self.hosts@),
                r@.map_values(|p: (HostConfig, ComposeDir)| (p.0@, p.1@)) == all_stacks(
                    hs.take(i as int),
                ),
            decreases self.hosts.len() - i,
        {
            let host = &self.hosts[i];
            let ghost hv = host@;
            let ghost start = r@.map_values(|p: (HostConfig, ComposeDir)| (p.0@, p.1@));
            let ghost ds = dirs_view(host.compose_dirs@);
            let mut k: usize = 0;
            while k < host.compose_dirs.len()
                invariant
                    k <= host.compose_dirs.len(),
                    hv == host@,
                    ds == dirs_view(host.compose_dirs@),
                    r@.map_values(|p: (HostConfig, ComposeDir)| (p.0@, p.1@)) == start
                        + ds.take(k as int).map_values(|d: ComposeDirView| (hv, d)),
                decreases host.compose_dirs.len() - k,
            {
                let ghost before = r@.map_values(|p: (HostConfig, ComposeDir)| (p.0@, p.1@));
                let h = host.clone();
                let d = host.compose_dirs[k].clone();
                r.push((h, d));
                assert(r@.map_values(|p: (HostConfig, ComposeDir)| (p.0@, p.1@)) =~= before.push(
                    (hv, ds[k as int]),
                ));
                assert(ds.take(k + 1).map_values(|d: ComposeDirView| (hv, d)) =~= ds.take(
                    k as int,
                ).map_values(|d: ComposeDirView| (hv, d)).push((hv, ds[k as int])));
                k = k + 1;
            }
            assert(ds.take(host.compose_dirs.len() as int) =~= ds);
            assert(hs.take(i + 1).drop_last() =~= hs.take(i as int));
            assert(hs.take(i + 1).last() == hv);
            i = i + 1;
        }
        assert(hs.take(self.hosts.len() as int) =~= hs);
        r
    }
}

} // verus!

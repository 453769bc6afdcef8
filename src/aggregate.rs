//! Aggregation of the version maps of several version groups into one map.
use vstd::prelude::*;
use crate::resolver::VersionGroupResolver;
use crate::uri::VersionGroupURI;
use crate::version_map::{
    entries_view, holds_key, keys_unique, lemma_lookup_some_iff_holds, DefaultVersionMap,
    EntryView, VersionMap, VersionMapIter,
};

verus! {

/// Two version groups of one header both record a version for a type.
#[derive(Debug, PartialEq, Eq)]
pub struct TypeInMultipleVersionGroups {
    pub type_id: String,
    pub uri_1: VersionGroupURI,
    pub uri_2: VersionGroupURI,
}

/// A version group of the header has no registered map.
#[derive(Debug, PartialEq, Eq)]
pub struct UnknownVersionURI {
    pub uri: VersionGroupURI,
}

#[derive(Debug, PartialEq, Eq)]
pub enum AggregateVersionMapError {
    UnknownVersionURI(UnknownVersionURI),
    TypeInMultipleVersionGroups(TypeInMultipleVersionGroups),
}

/// Why the maps of a list of groups cannot be merged: the group at an
/// index is unknown, or a type is named by an earlier group and a later one.
pub enum MergeFailure {
    UnknownGroup(int),
    SharedType(Seq<char>, int, int),
}

/// The entries of the group that `uri` stands for, if it is registered.
pub open spec fn resolved<R: VersionGroupResolver>(resolver: &R, uri: VersionGroupURI) -> Option<
    Seq<EntryView>,
> {
    match resolver.spec_resolve(uri.group_view(), uri.version_view()) {
        Some(m) => Some(m.spec_entries()),
        None => None,
    }
}

pub open spec fn resolved_all<R: VersionGroupResolver>(
    resolver: &R,
    uris: Seq<VersionGroupURI>,
) -> Seq<Option<Seq<EntryView>>> {
    uris.map_values(|u: VersionGroupURI| resolved(resolver, u))
}

/// The first group at or after `j` and before `n` that names `type_id`, or `n`.
pub open spec fn holder_from(groups: Seq<Option<Seq<EntryView>>>, type_id: Seq<char>, j: int, n: int) -> int
    decreases n - j,
{
    if j >= n {
        n
    } else if groups[j] is Some && holds_key(groups[j]->0, type_id) {
        j
    } else {
        holder_from(groups, type_id, j + 1, n)
    }
}

/// The first group before `n` that names `type_id`, or `n`.
pub open spec fn first_holder(groups: Seq<Option<Seq<EntryView>>>, type_id: Seq<char>, n: int) -> int {
    holder_from(groups, type_id, 0, n)
}

/// The first entry of `e`, at or after `p`, whose type a group before `n`
/// names, or the length of `e`.
pub open spec fn shared_from(
    groups: Seq<Option<Seq<EntryView>>>,
    e: Seq<EntryView>,
    n: int,
    p: int,
) -> int
    decreases e.len() - p,
{
    if p >= e.len() {
        e.len() as int
    } else if first_holder(groups, e[p].0, n) < n {
        p
    } else {
        shared_from(groups, e, n, p + 1)
    }
}

/// Merging the first `n` groups, in order: the concatenation of their
/// entries, or the first failure met on the way.
pub open spec fn merged(groups: Seq<Option<Seq<EntryView>>>, n: int) -> Result<
    Seq<EntryView>,
    MergeFailure,
>
    decreases n,
{
    if n <= 0 {
        Ok(Seq::empty())
    } else {
        match merged(groups, n - 1) {
            Err(f) => Err(f),
            Ok(acc) => match groups[n - 1] {
                None => Err(MergeFailure::UnknownGroup(n - 1)),
                Some(e) => {
                    let q = shared_from(groups, e, n - 1, 0);
                    if q < e.len() {
                        Err(MergeFailure::SharedType(e[q].0, first_holder(groups, e[q].0, n - 1), n - 1))
                    } else {
                        Ok(acc + e)
                    }
                },
            },
        }
    }
}

/// `r` is what aggregating `uris` must give, by the merge `outcome`.
pub open spec fn reports(
    r: Result<DefaultVersionMap, AggregateVersionMapError>,
    uris: Seq<VersionGroupURI>,
    outcome: Result<Seq<EntryView>, MergeFailure>,
) -> bool {
    match outcome {
        Ok(e) => r matches Ok(m) && m@ == e,
        Err(MergeFailure::UnknownGroup(k)) => match r {
            Err(AggregateVersionMapError::UnknownVersionURI(x)) => x.uri@ == uris[k]@,
            _ => false,
        },
        Err(MergeFailure::SharedType(t, j, k)) => match r {
            Err(AggregateVersionMapError::TypeInMultipleVersionGroups(x)) => {
                &&& x.type_id@ == t
                &&& x.uri_1@ == uris[j]@
                &&& x.uri_2@ == uris[k]@
            },
            _ => false,
        },
    }
}

proof fn lemma_merged_err_stable(groups: Seq<Option<Seq<EntryView>>>, n: int, m: int)
    requires
        0 <= n <= m,
        merged(groups, n) is Err,
    ensures
        merged(groups, m) == merged(groups, n),
    decreases m - n,
{
    if m > n {
        lemma_merged_err_stable(groups, n, m - 1);
    }
}

proof fn lemma_holder_extend(groups: Seq<Option<Seq<EntryView>>>, type_id: Seq<char>, j: int, n: int)
    requires
        0 <= j <= n < groups.len(),
    ensures
        holder_from(groups, type_id, j, n) <= n,
        j <= holder_from(groups, type_id, j, n),
        holder_from(groups, type_id, j, n) < n ==> holder_from(groups, type_id, j, n + 1)
            == holder_from(groups, type_id, j, n),
        holder_from(groups, type_id, j, n) == n ==> holder_from(groups, type_id, j, n + 1) == if groups[n] is Some
            && holds_key(groups[n]->0, type_id) {
            n
        } else {
            n + 1
        },
        holder_from(groups, type_id, j, n) < n ==> groups[holder_from(groups, type_id, j, n)] is Some
            && holds_key(groups[holder_from(groups, type_id, j, n)]->0, type_id),
    decreases n - j,
{
    if j < n {
        lemma_holder_extend(groups, type_id, j + 1, n);
    } else {
        assert(holder_from(groups, type_id, n + 1, n + 1) == n + 1);
    }
}

proof fn lemma_shared_found(groups: Seq<Option<Seq<EntryView>>>, e: Seq<EntryView>, n: int, p: int)
    requires
        0 <= p <= e.len(),
    ensures
        p <= shared_from(groups, e, n, p) <= e.len(),
        shared_from(groups, e, n, p) < e.len() ==> first_holder(
            groups,
            e[shared_from(groups, e, n, p)].0,
            n,
        ) < n,
        forall|q: int|
            p <= q < shared_from(groups, e, n, p) ==> first_holder(groups, e[q].0, n) >= n,
    decreases e.len() - p,
{
    if p < e.len() {
        lemma_shared_found(groups, e, n, p + 1);
    }
}

proof fn lemma_first_group_merges(groups: Seq<Option<Seq<EntryView>>>, e: Seq<EntryView>, p: int)
    requires
        0 <= p <= e.len(),
    ensures
        shared_from(groups, e, 0, p) == e.len(),
    decreases e.len() - p,
{
    if p < e.len() {
        lemma_first_group_merges(groups, e, p + 1);
    }
}

proof fn lemma_second_group_collides(e1: Seq<EntryView>, e2: Seq<EntryView>, type_id: Seq<char>)
    requires
        holds_key(e1, type_id),
        holds_key(e2, type_id),
    ensures
        ({
            let groups = seq![Some(e1), Some(e2)];
            match merged(groups, 2) {
                Err(MergeFailure::SharedType(t, j, k)) => j == 0 && k == 1 && holds_key(e1, t)
                    && holds_key(e2, t),
                _ => false,
            }
        }),
{
    let groups = seq![Some(e1), Some(e2)];
    lemma_first_group_merges(groups, e1, 0);
    assert(merged(groups, 0) == Ok::<Seq<EntryView>, MergeFailure>(Seq::empty()));
    assert(merged(groups, 1) is Ok);
    let p = choose|p: int| 0 <= p < e2.len() && e2[p].0 == type_id;
    assert(holder_from(groups, type_id, 0, 1) == 0);
    lemma_shared_found(groups, e2, 1, 0);
    if shared_from(groups, e2, 1, 0) == e2.len() {
        assert(first_holder(groups, e2[p].0, 1) >= 1);
    }
    let q = shared_from(groups, e2, 1, 0);
    let t = e2[q].0;
    assert(first_holder(groups, t, 1) < 1);
    lemma_holder_extend(groups, t, 0, 1);
    assert(groups[0] == Some(e1) && groups[1] == Some(e2));
    assert(holds_key(e1, t));
    assert(holds_key(e2, t));
    assert(merged(groups, 2) == Err::<Seq<EntryView>, MergeFailure>(
        MergeFailure::SharedType(t, 0, 1),
    ));
}

/// Two version groups that both record a version for one type cannot be
/// merged, in either order: the failure names the type and both groups.
pub proof fn lemma_shared_type_rejected(e1: Seq<EntryView>, e2: Seq<EntryView>, type_id: Seq<char>)
    requires
        holds_key(e1, type_id),
        holds_key(e2, type_id),
    ensures
        match merged(seq![Some(e1), Some(e2)], 2) {
            Err(MergeFailure::SharedType(t, j, k)) => j == 0 && k == 1 && holds_key(e1, t)
                && holds_key(e2, t),
            _ => false,
        },
        match merged(seq![Some(e2), Some(e1)], 2) {
            Err(MergeFailure::SharedType(t, j, k)) => j == 0 && k == 1 && holds_key(e1, t)
                && holds_key(e2, t),
            _ => false,
        },
{
    lemma_second_group_collides(e1, e2, type_id);
    lemma_second_group_collides(e2, e1, type_id);
}

/// Every one of the first `n` groups is registered.
pub open spec fn all_resolved(groups: Seq<Option<Seq<EntryView>>>, n: int) -> bool {
    forall|i: int| 0 <= i < n ==> groups[i] is Some
}

/// No type is named by two of the first `n` groups.
pub open spec fn pairwise_disjoint(groups: Seq<Option<Seq<EntryView>>>, n: int) -> bool {
    forall|i: int, j: int, k: Seq<char>|
        0 <= i < j < n && #[trigger] holds_key(groups[i]->0, k) ==> !#[trigger] holds_key(
            groups[j]->0,
            k,
        )
}

/// The entries of the first `n` groups, one group after the other.
pub open spec fn concatenated(groups: Seq<Option<Seq<EntryView>>>, n: int) -> Seq<EntryView>
    decreases n,
{
    if n <= 0 {
        Seq::empty()
    } else {
        concatenated(groups, n - 1) + groups[n - 1]->0
    }
}

proof fn lemma_holder_exists(groups: Seq<Option<Seq<EntryView>>>, k: Seq<char>, j: int, n: int)
    requires
        0 <= j <= n <= groups.len(),
    ensures
        holder_from(groups, k, j, n) < n <==> exists|jj: int|
            j <= jj < n && groups[jj] is Some && #[trigger] holds_key(groups[jj]->0, k),
    decreases n - j,
{
    if j < n {
        lemma_holder_exists(groups, k, j + 1, n);
        if groups[j] is Some && holds_key(groups[j]->0, k) {
            assert(j <= j < n && groups[j] is Some && holds_key(groups[j]->0, k));
        } else if exists|jj: int|
            j <= jj < n && groups[jj] is Some && #[trigger] holds_key(groups[jj]->0, k) {
            let jj = choose|jj: int|
                j <= jj < n && groups[jj] is Some && #[trigger] holds_key(groups[jj]->0, k);
            assert(j + 1 <= jj < n && groups[jj] is Some && holds_key(groups[jj]->0, k));
        }
    }
}

/// Merging the first `n` groups succeeds exactly when each of them is
/// registered and no type is named by two of them; the result is then their
/// entries, one group after the other.
pub proof fn lemma_merge_succeeds_iff_disjoint(groups: Seq<Option<Seq<EntryView>>>, n: int)
    requires
        0 <= n <= groups.len(),
    ensures
        merged(groups, n) is Ok <==> (all_resolved(groups, n) && pairwise_disjoint(groups, n)),
        merged(groups, n) is Ok ==> merged(groups, n) == Ok::<Seq<EntryView>, MergeFailure>(
            concatenated(groups, n),
        ),
    decreases n,
{
    if n > 0 {
        let m = n - 1;
        lemma_merge_succeeds_iff_disjoint(groups, m);
        if all_resolved(groups, n) && pairwise_disjoint(groups, n) {
            assert(all_resolved(groups, m));
            assert(pairwise_disjoint(groups, m));
            let e = groups[m]->0;
            lemma_shared_found(groups, e, m, 0);
            let q = shared_from(groups, e, m, 0);
            if q < e.len() {
                let k = e[q].0;
                lemma_holder_exists(groups, k, 0, m);
                let jj = choose|jj: int|
                    0 <= jj < m && groups[jj] is Some && #[trigger] holds_key(groups[jj]->0, k);
                assert(holds_key(e, k));
                assert(holds_key(groups[m]->0, k));
            }
        } else if merged(groups, n) is Ok {
            let e = groups[m]->0;
            lemma_shared_found(groups, e, m, 0);
            assert forall|i: int| 0 <= i < n implies groups[i] is Some by {}
            assert forall|i: int, j: int, k: Seq<char>|
                0 <= i < j < n && #[trigger] holds_key(groups[i]->0, k) implies !#[trigger] holds_key(
                groups[j]->0,
                k,
            ) by {
                if j == m && holds_key(e, k) {
                    let p = choose|p: int| 0 <= p < e.len() && e[p].0 == k;
                    lemma_holder_exists(groups, k, 0, m);
                    assert(first_holder(groups, e[p].0, m) >= m);
                    assert(0 <= i < m && groups[i] is Some && holds_key(groups[i]->0, k));
                }
            }
        }
    }
}

/// Merges the version maps of `uris`, in order, into one map; fails on the
/// first group that is not registered, or on the first type that an earlier
/// group already names.
pub fn aggregate<R: VersionGroupResolver>(uris: &[VersionGroupURI], resolver: &R) -> (r: Result<
    DefaultVersionMap,
    AggregateVersionMapError,
>)
    ensures
        reports(r, uris@, merged(resolved_all(resolver, uris@), uris@.len() as int)),
{
    let ghost groups = resolved_all(resolver, uris@);
    let mut acc: Vec<(String, usize)> = Vec::new();
    let mut i: usize = 0;
    assert(entries_view(acc@) =~= Seq::<EntryView>::empty());
    while i < uris.len()
        invariant
            groups == resolved_all(resolver, uris@),
            i <= uris.len(),
            merged(groups, i as int) == Ok::<Seq<EntryView>, MergeFailure>(entries_view(acc@)),
            keys_unique(entries_view(acc@)),
            forall|k: Seq<char>|
                #[trigger] holds_key(entries_view(acc@), k) ==> first_holder(groups, k, i as int)
                    < i,
        decreases uris.len() - i,
    {
        let found = resolver.resolve(&uris[i]);
        match found {
            None => {
                proof {
                    assert(groups[i as int] is None);
                    lemma_merged_err_stable(groups, i as int + 1, uris@.len() as int);
                }
                return Err(
                    AggregateVersionMapError::UnknownVersionURI(
                        UnknownVersionURI { uri: uris[i].to_static() },
                    ),
                );
            },
            Some(map) => {
                let entries = map.iter();
                let ghost e = entries_view(entries@);
                assert(groups[i as int] == Some(e));
                let mut p: usize = 0;
                while p < entries.len()
                    invariant
                        groups == resolved_all(resolver, uris@),
                        e == entries_view(entries@),
                        i < uris.len(),
                        p <= entries.len(),
                        shared_from(groups, e, i as int, 0) == shared_from(groups, e, i as int, p as int),
                        merged(groups, i as int) == Ok::<Seq<EntryView>, MergeFailure>(entries_view(acc@)),
                        groups[i as int] == Some(e),
                    decreases entries.len() - p,
                {
                    let mut j: usize = 0;
                    while j < i
                        invariant
                            groups == resolved_all(resolver, uris@),
                            e == entries_view(entries@),
                            i < uris.len(),
                            p < entries.len(),
                            j <= i,
                            shared_from(groups, e, i as int, 0) == shared_from(groups, e, i as int, p as int),
                            merged(groups, i as int) == Ok::<Seq<EntryView>, MergeFailure>(entries_view(acc@)),
                            groups[i as int] == Some(e),
                            first_holder(groups, e[p as int].0, i as int) == holder_from(
                                groups,
                                e[p as int].0,
                                j as int,
                                i as int,
                            ),
                        decreases i - j,
                    {
                        if let Some(other) = resolver.resolve(&uris[j]) {
                            proof {
                                lemma_lookup_some_iff_holds(other.spec_entries(), e[p as int].0);
                                assert(groups[j as int] == Some(other.spec_entries()));
                            }
                            if other.get(entries[p].0.as_str()).is_some() {
                                proof {
                                    assert(holds_key(groups[j as int]->0, e[p as int].0));
                                    assert(holder_from(groups, e[p as int].0, j as int, i as int) == j);
                                    assert(first_holder(groups, e[p as int].0, i as int) < i);
                                    assert(shared_from(groups, e, i as int, p as int) == p);
                                    assert(merged(groups, i as int + 1) is Err);
                                    lemma_merged_err_stable(groups, i as int + 1, uris@.len() as int);
                                }
                                return Err(
                                    AggregateVersionMapError::TypeInMultipleVersionGroups(
                                        TypeInMultipleVersionGroups {
                                            type_id: entries[p].0.clone(),
                                            uri_1: uris[j].to_static(),
                                            uri_2: uris[i].to_static(),
                                        },
                                    ),
                                );
                            }
                        }
                        j = j + 1;
                    }
                    proof {
                        lemma_holder_extend(groups, e[p as int].0, 0, i as int);
                    }
                    p = p + 1;
                }
                proof {
                    lemma_shared_found(groups, e, i as int, 0);
                }
                let mut p: usize = 0;
                let ghost acc0 = entries_view(acc@);
                while p < entries.len()
                    invariant
                        groups == resolved_all(resolver, uris@),
                        e == entries_view(entries@),
                        keys_unique(e),
                        i < uris.len(),
                        p <= entries.len(),
                        forall|q: int| 0 <= q < e.len() ==> first_holder(groups, #[trigger] e[q].0, i as int) >= i,
                        forall|k: Seq<char>|
                            #[trigger] holds_key(acc0, k) ==> first_holder(groups, k, i as int) < i,
                        keys_unique(acc0),
                        entries_view(acc@) == acc0 + e.take(p as int),
                        keys_unique(entries_view(acc@)),
                    decreases entries.len() - p,
                {
                    let ghost prev = acc@;
                    acc.push((entries[p].0.clone(), entries[p].1));
                    proof {
                        let cur = entries_view(acc@);
                        assert(acc@ == prev.push(acc@.last()));
                        assert(cur =~= entries_view(prev).push(e[p as int]));
                        assert(e.take(p as int + 1) =~= e.take(p as int).push(e[p as int]));
                        assert forall|a: int, b: int| 0 <= a < b < cur.len() implies cur[a].0
                            != cur[b].0 by {
                            if b == cur.len() - 1 && a < acc0.len() {
                                if cur[a].0 == cur[b].0 {
                                    assert(holds_key(acc0, cur[a].0));
                                }
                            } else if b == cur.len() - 1 {
                                assert(cur[a] == e[a - acc0.len()]);
                            }
                        }
                    }
                    p = p + 1;
                }
                proof {
                    assert(e.take(p as int) =~= e);
                    assert forall|k: Seq<char>| #[trigger]
                        holds_key(entries_view(acc@), k) implies first_holder(groups, k, i as int + 1) < i + 1 by {
                        lemma_holder_extend(groups, k, 0, i as int);
                        let a = choose|a: int|
                            0 <= a < entries_view(acc@).len() && entries_view(acc@)[a].0 == k;
                        if a < acc0.len() {
                            assert(acc0[a].0 == k);
                            assert(holds_key(acc0, k));
                        } else {
                            assert(e[a - acc0.len()].0 == k);
                            assert(holds_key(e, k));
                        }
                    }
                }
            },
        }
        i = i + 1;
    }
    Ok(DefaultVersionMap::from_unique(acc))
}

/// Builds one map from the maps of several version groups.
///
/// The provided method builds a new map at each call; an implementation may
/// keep the maps it has built.
pub trait AggregateVersionMap {
    fn aggregate_version_maps<R: VersionGroupResolver>(
        &self,
        uris: &[VersionGroupURI],
        resolver: &R,
    ) -> (r: Result<DefaultVersionMap, AggregateVersionMapError>)
        ensures
            reports(r, uris@, merged(resolved_all(resolver, uris@), uris@.len() as int)),
    ;
}

impl AggregateVersionMap for () {
    fn aggregate_version_maps<R: VersionGroupResolver>(
        &self,
        uris: &[VersionGroupURI],
        resolver: &R,
    ) -> (r: Result<DefaultVersionMap, AggregateVersionMapError>) {
        aggregate(uris, resolver)
    }
}

} // verus!

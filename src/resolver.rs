//! Resolution of version group identifiers to version maps.
use vstd::prelude::*;
use crate::uri::VersionGroupURI;
use crate::version_map::{DefaultVersionMap, VersionMap};

verus! {

/// Finds the version map that a version group identifier stands for.
pub trait VersionGroupResolver {
    type VM: VersionMap;

    /// The map registered for an API group and a version, if any.
    spec fn spec_resolve(&self, api_group: Seq<char>, version: Seq<char>) -> Option<Self::VM>;

    fn resolve(&self, uri: &VersionGroupURI) -> (r: Option<&Self::VM>)
        ensures
            r is None <==> self.spec_resolve(uri.group_view(), uri.version_view()) is None,
            r matches Some(m) ==> self.spec_resolve(uri.group_view(), uri.version_view()) == Some(
                *m,
            ),
    ;
}

/// A registered group: API group, version, and its map.
pub type GroupView = (Seq<char>, Seq<char>, DefaultVersionMap);

/// Position of the first registration of `(api_group, version)`, or the
/// number of registrations when there is none.
pub open spec fn group_index(groups: Seq<GroupView>, api_group: Seq<char>, version: Seq<char>) -> int
    decreases groups.len(),
{
    if groups.len() == 0 {
        0
    } else if groups[0].0 == api_group && groups[0].1 == version {
        0
    } else {
        1 + group_index(groups.drop_first(), api_group, version)
    }
}

pub open spec fn find_group(groups: Seq<GroupView>, api_group: Seq<char>, version: Seq<char>) -> Option<
    DefaultVersionMap,
> {
    let p = group_index(groups, api_group, version);
    if p < groups.len() {
        Some(groups[p].2)
    } else {
        None
    }
}

proof fn lemma_group_index(groups: Seq<GroupView>, api_group: Seq<char>, version: Seq<char>, i: int)
    requires
        0 <= i <= groups.len(),
        forall|q: int| 0 <= q < i ==> !(groups[q].0 == api_group && groups[q].1 == version),
        i == groups.len() || (groups[i].0 == api_group && groups[i].1 == version),
    ensures
        group_index(groups, api_group, version) == i,
    decreases groups.len(),
{
    if groups.len() > 0 && i > 0 {
        let rest = groups.drop_first();
        assert forall|q: int| 0 <= q < i - 1 implies !(rest[q].0 == api_group && rest[q].1
            == version) by {
            assert(rest[q] == groups[q + 1]);
        }
        lemma_group_index(rest, api_group, version, i - 1);
    }
}

/// The default resolver: a table from `(api_group, version)` to a version map.
pub struct DefaultVersionGroupResolver {
    groups: Vec<(String, String, DefaultVersionMap)>,
}

pub open spec fn groups_view(v: Seq<(String, String, DefaultVersionMap)>) -> Seq<GroupView> {
    v.map_values(|g: (String, String, DefaultVersionMap)| (g.0@, g.1@, g.2))
}

impl View for DefaultVersionGroupResolver {
    type V = Seq<GroupView>;

    closed spec fn view(&self) -> Seq<GroupView> {
        groups_view(self.groups@)
    }
}

impl DefaultVersionGroupResolver {
    pub fn new() -> (r: DefaultVersionGroupResolver)
        ensures
            r@ == Seq::<GroupView>::empty(),
    {
        let r = DefaultVersionGroupResolver { groups: Vec::new() };
        assert(r@ =~= Seq::<GroupView>::empty());
        r
    }

    pub fn len(&self) -> (r: usize)
        ensures
            r == self@.len(),
    {
        self.groups.len()
    }

    fn position(&self, api_group: &str, version: &str) -> (r: usize)
        ensures
            r == group_index(self@, api_group@, version@),
            r <= self@.len(),
    {
        let g = api_group.to_owned();
        let v = version.to_owned();
        let mut i: usize = 0;
        while i < self.groups.len()
            invariant
                g@ == api_group@,
                v@ == version@,
                i <= self.groups.len(),
                forall|q: int|
                    0 <= q < i ==> !(self@[q].0 == api_group@ && self@[q].1 == version@),
            decreases self.groups.len() - i,
        {
            if self.groups[i].0 == g && self.groups[i].1 == v {
                proof {
                    lemma_group_index(self@, api_group@, version@, i as int);
                }
                return i;
            }
            i = i + 1;
        }
        proof {
            lemma_group_index(self@, api_group@, version@, i as int);
        }
        i
    }

    /// The map registered for `(api_group, version)`.
    pub fn get(&self, api_group: &str, version: &str) -> (r: Option<&DefaultVersionMap>)
        ensures
            r is None <==> find_group(self@, api_group@, version@) is None,
            r matches Some(m) ==> find_group(self@, api_group@, version@) == Some(*m),
    {
        let p = self.position(api_group, version);
        if p < self.groups.len() {
            Some(&self.groups[p].2)
        } else {
            None
        }
    }

    /// Registers `map` for `(api_group, version)`, replacing an earlier
    /// registration of the same pair.
    pub fn insert(&mut self, api_group: &str, version: &str, map: DefaultVersionMap)
        ensures
            ({
                let p = group_index(old(self)@, api_group@, version@);
                if p < old(self)@.len() {
                    final(self)@ == old(self)@.update(p, (api_group@, version@, map))
                } else {
                    final(self)@ == old(self)@.push((api_group@, version@, map))
                }
            }),
    {
        let p = self.position(api_group, version);
        let ghost before = self@;
        let item = (api_group.to_owned(), version.to_owned(), map);
        if p < self.groups.len() {
            self.groups.set(p, item);
            assert(self@ =~= before.update(p as int, (api_group@, version@, map)));
        } else {
            self.groups.push(item);
            assert(self@ =~= before.push((api_group@, version@, map)));
        }
    }
}

impl VersionGroupResolver for DefaultVersionGroupResolver {
    type VM = DefaultVersionMap;

    open spec fn spec_resolve(&self, api_group: Seq<char>, version: Seq<char>) -> Option<
        DefaultVersionMap,
    > {
        find_group(self@, api_group, version)
    }

    fn resolve(&self, uri: &VersionGroupURI) -> (r: Option<&DefaultVersionMap>) {
        self.get(uri.api_group(), uri.version())
    }
}

} // verus!

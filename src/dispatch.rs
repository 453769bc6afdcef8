//! The versions a type declares, and the rule that picks the schema a value
//! of that type is read with.
use vstd::prelude::*;
use crate::version_map::{lookup, VersionMap, VersionMapIter};

verus! {

/// The schema of a declared version: a historical type, or the type itself.
#[derive(Debug, Clone, PartialEq, Eq)]
pub enum PathOrSelf {
    SelfType,
    Path(String),
}

/// A declared version: schema, version number, and whether it is the one
/// read when no version is recorded.
#[derive(Debug, Clone, PartialEq, Eq)]
pub struct Version {
    pub path: PathOrSelf,
    pub index: usize,
    pub is_default: bool,
}

/// A declared version as values: the historical type's path (`None` for the
/// type itself), the version number, the default mark.
pub type VersionView = (Option<Seq<char>>, usize, bool);

pub open spec fn path_view(p: PathOrSelf) -> Option<Seq<char>> {
    match p {
        PathOrSelf::SelfType => None,
        PathOrSelf::Path(s) => Some(s@),
    }
}

pub open spec fn version_view(v: Version) -> VersionView {
    (path_view(v.path), v.index, v.is_default)
}

/// One version item as it was written: each part may be missing.
#[derive(Debug, Clone, PartialEq, Eq)]
pub struct VersionAttr {
    pub path: Option<String>,
    pub index: Option<usize>,
    pub is_self: bool,
    pub is_default: bool,
}

pub type AttrView = (Option<Seq<char>>, Option<usize>, bool, bool);

pub open spec fn attr_view(a: VersionAttr) -> AttrView {
    (
        match a.path {
            Some(s) => Some(s@),
            None => None,
        },
        a.index,
        a.is_self,
        a.is_default,
    )
}

/// Why a list of version items does not declare a type's versions.
#[derive(Debug, Clone, Copy, PartialEq, Eq, Structural)]
pub enum VersionsError {
    /// An item names both a historical type and the type itself.
    TypeAndSelf,
    /// An item names neither a historical type nor the type itself.
    MissingTypeOrSelf,
    /// An item has no version number.
    MissingIndex,
    /// Two items have this version number.
    DuplicateIndex(usize),
    /// Two items are marked as the type itself.
    MultipleSelf,
    /// Two items are marked default.
    MultipleDefaults,
    /// No item is marked as the type itself.
    MissingSelf,
}

pub open spec fn has_index(vs: Seq<VersionView>, index: usize) -> bool {
    exists|q: int| 0 <= q < vs.len() && vs[q].1 == index
}

pub open spec fn has_self(vs: Seq<VersionView>) -> bool {
    exists|q: int| 0 <= q < vs.len() && vs[q].0 is None
}

pub open spec fn has_default(vs: Seq<VersionView>) -> bool {
    exists|q: int| 0 <= q < vs.len() && vs[q].2
}

/// What is wrong with item `a` taken alone.
pub open spec fn item_error(a: AttrView) -> Option<VersionsError> {
    if a.0 is Some && a.2 {
        Some(VersionsError::TypeAndSelf)
    } else if a.0 is None && !a.2 {
        Some(VersionsError::MissingTypeOrSelf)
    } else if a.1 is None {
        Some(VersionsError::MissingIndex)
    } else {
        None
    }
}

/// The error of the first of the first `n` items that is wrong taken alone.
pub open spec fn first_item_error(attrs: Seq<AttrView>, n: int) -> Option<VersionsError>
    decreases n,
{
    if n <= 0 {
        None
    } else {
        match first_item_error(attrs, n - 1) {
            Some(e) => Some(e),
            None => item_error(attrs[n - 1]),
        }
    }
}

/// Some item is marked as the type itself.
pub open spec fn marks_self(attrs: Seq<AttrView>) -> bool {
    exists|q: int| 0 <= q < attrs.len() && attrs[q].2
}

/// How item `a` clashes with the versions `earlier` read before it.
pub open spec fn clash(a: AttrView, earlier: Seq<VersionView>) -> Option<VersionsError> {
    if has_index(earlier, a.1->0) {
        Some(VersionsError::DuplicateIndex(a.1->0))
    } else if a.2 && has_self(earlier) {
        Some(VersionsError::MultipleSelf)
    } else if a.3 && has_default(earlier) {
        Some(VersionsError::MultipleDefaults)
    } else {
        None
    }
}

pub open spec fn attr_version(a: AttrView) -> VersionView {
    (a.0, a.1->0, a.3)
}

/// Reading the first `n` items in order, each checked against those before.
pub open spec fn parsed(attrs: Seq<AttrView>, n: int) -> Result<Seq<VersionView>, VersionsError>
    decreases n,
{
    if n <= 0 {
        Ok(Seq::empty())
    } else {
        match parsed(attrs, n - 1) {
            Err(e) => Err(e),
            Ok(vs) => match clash(attrs[n - 1], vs) {
                Some(e) => Err(e),
                None => Ok(vs.push(attr_version(attrs[n - 1]))),
            },
        }
    }
}

/// The versions that `attrs` declare, or the error found: first an item
/// that is wrong taken alone, then a list with no item for the type itself,
/// then the first item that clashes with an earlier one.
pub open spec fn versions_from(attrs: Seq<AttrView>) -> Result<Seq<VersionView>, VersionsError> {
    match first_item_error(attrs, attrs.len() as int) {
        Some(e) => Err(e),
        None => if !marks_self(attrs) {
            Err(VersionsError::MissingSelf)
        } else {
            parsed(attrs, attrs.len() as int)
        },
    }
}

/// Version numbers are unique, exactly one version is the type itself, at
/// most one is the default.
pub open spec fn valid_versions(vs: Seq<VersionView>) -> bool {
    &&& forall|p: int, q: int| 0 <= p < q < vs.len() ==> vs[p].1 != vs[q].1
    &&& forall|p: int, q: int| 0 <= p < q < vs.len() ==> !(vs[p].0 is None && vs[q].0 is None)
    &&& forall|p: int, q: int| 0 <= p < q < vs.len() ==> !(vs[p].2 && vs[q].2)
    &&& has_self(vs)
}

/// The schema to read a value with.
#[derive(Debug, Clone, Copy, PartialEq, Eq, Structural)]
pub enum Dispatch {
    /// The current shape of the type.
    Current,
    /// The historical schema declared with this version number, converted
    /// to the current type after reading.
    Historical(usize),
}

/// The version recorded for a type matches none of its declared versions.
#[derive(Debug, Clone, PartialEq, Eq, Hash)]
pub struct InvalidVersionError {
    pub version: usize,
    pub type_id: String,
}

/// Position of the first version numbered `index`, or the length.
pub open spec fn index_pos(vs: Seq<VersionView>, index: usize) -> int
    decreases vs.len(),
{
    if vs.len() == 0 {
        0
    } else if vs[0].1 == index {
        0
    } else {
        1 + index_pos(vs.drop_first(), index)
    }
}

/// Position of the first default version, or the length.
pub open spec fn default_pos(vs: Seq<VersionView>) -> int
    decreases vs.len(),
{
    if vs.len() == 0 {
        0
    } else if vs[0].2 {
        0
    } else {
        1 + default_pos(vs.drop_first())
    }
}

/// The schema chosen for a recorded version, or `None` when the recorded
/// version is not declared.
pub open spec fn dispatch_spec(vs: Seq<VersionView>, recorded: Option<usize>) -> Option<Dispatch> {
    match recorded {
        Some(v) => {
            let p = index_pos(vs, v);
            if p < vs.len() {
                if vs[p].0 is None {
                    Some(Dispatch::Current)
                } else {
                    Some(Dispatch::Historical(v))
                }
            } else {
                None
            }
        },
        None => {
            let d = default_pos(vs);
            if d < vs.len() && vs[d].0 is Some {
                Some(Dispatch::Historical(vs[d].1))
            } else {
                Some(Dispatch::Current)
            }
        },
    }
}

/// `r` is the outcome of dispatching `recorded` for `type_id` over `vs`.
pub open spec fn dispatched(
    r: Result<Dispatch, InvalidVersionError>,
    vs: Seq<VersionView>,
    type_id: Seq<char>,
    recorded: Option<usize>,
) -> bool {
    match dispatch_spec(vs, recorded) {
        Some(d) => r == Ok::<Dispatch, InvalidVersionError>(d),
        None => match r {
            Err(e) => recorded == Some(e.version) && e.type_id@ == type_id,
            Ok(_) => false,
        },
    }
}

proof fn lemma_item_error_stable(attrs: Seq<AttrView>, n: int, m: int)
    requires
        0 <= n <= m,
        first_item_error(attrs, n) is Some,
    ensures
        first_item_error(attrs, m) == first_item_error(attrs, n),
    decreases m - n,
{
    if m > n {
        lemma_item_error_stable(attrs, n, m - 1);
    }
}

proof fn lemma_parsed_err_stable(attrs: Seq<AttrView>, n: int, m: int)
    requires
        0 <= n <= m,
        parsed(attrs, n) is Err,
    ensures
        parsed(attrs, m) == parsed(attrs, n),
    decreases m - n,
{
    if m > n {
        lemma_parsed_err_stable(attrs, n, m - 1);
    }
}

proof fn lemma_index_pos(vs: Seq<VersionView>, index: usize, i: int)
    requires
        0 <= i <= vs.len(),
        forall|q: int| 0 <= q < i ==> vs[q].1 != index,
        i == vs.len() || vs[i].1 == index,
    ensures
        index_pos(vs, index) == i,
    decreases vs.len(),
{
    if vs.len() > 0 && i > 0 {
        let rest = vs.drop_first();
        assert forall|q: int| 0 <= q < i - 1 implies rest[q].1 != index by {
            assert(rest[q] == vs[q + 1]);
        }
        lemma_index_pos(rest, index, i - 1);
    }
}

proof fn lemma_default_pos(vs: Seq<VersionView>, i: int)
    requires
        0 <= i <= vs.len(),
        forall|q: int| 0 <= q < i ==> !vs[q].2,
        i == vs.len() || vs[i].2,
    ensures
        default_pos(vs) == i,
    decreases vs.len(),
{
    if vs.len() > 0 && i > 0 {
        let rest = vs.drop_first();
        assert forall|q: int| 0 <= q < i - 1 implies !rest[q].2 by {
            assert(rest[q] == vs[q + 1]);
        }
        lemma_default_pos(rest, i - 1);
    }
}

/// The versions a type declares: historical schemas, the current shape, and
/// at most one default.
#[derive(Debug, Clone, PartialEq, Eq)]
pub struct Versions {
    versions: Vec<Version>,
}

pub open spec fn versions_view(v: Seq<Version>) -> Seq<VersionView> {
    v.map_values(|x: Version| version_view(x))
}

impl View for Versions {
    type V = Seq<VersionView>;

    closed spec fn view(&self) -> Seq<VersionView> {
        versions_view(self.versions@)
    }
}

fn find_index(vs: &Vec<Version>, index: usize) -> (r: usize)
    ensures
        r == index_pos(versions_view(vs@), index),
        r <= vs@.len(),
        r < vs@.len() <==> has_index(versions_view(vs@), index),
{
    let ghost w = versions_view(vs@);
    let mut i: usize = 0;
    while i < vs.len()
        invariant
            w == versions_view(vs@),
            i <= vs.len(),
            forall|q: int| 0 <= q < i ==> w[q].1 != index,
        decreases vs.len() - i,
    {
        if vs[i].index == index {
            proof {
                lemma_index_pos(w, index, i as int);
            }
            return i;
        }
        i = i + 1;
    }
    proof {
        lemma_index_pos(w, index, i as int);
    }
    i
}

fn find_default(vs: &Vec<Version>) -> (r: usize)
    ensures
        r == default_pos(versions_view(vs@)),
        r <= vs@.len(),
        r < vs@.len() <==> has_default(versions_view(vs@)),
{
    let ghost w = versions_view(vs@);
    let mut i: usize = 0;
    while i < vs.len()
        invariant
            w == versions_view(vs@),
            i <= vs.len(),
            forall|q: int| 0 <= q < i ==> !w[q].2,
        decreases vs.len() - i,
    {
        if vs[i].is_default {
            proof {
                lemma_default_pos(w, i as int);
            }
            return i;
        }
        i = i + 1;
    }
    proof {
        lemma_default_pos(w, i as int);
    }
    i
}

fn find_self(vs: &Vec<Version>) -> (r: bool)
    ensures
        r == has_self(versions_view(vs@)),
{
    let ghost w = versions_view(vs@);
    let mut i: usize = 0;
    while i < vs.len()
        invariant
            w == versions_view(vs@),
            i <= vs.len(),
            forall|q: int| 0 <= q < i ==> w[q].0 is Some,
        decreases vs.len() - i,
    {
        if let PathOrSelf::SelfType = vs[i].path {
            assert(w[i as int].0 is None);
            return true;
        }
        i = i + 1;
    }
    false
}

impl Versions {
    /// Reads version items in order into the versions of a type. Fails on
    /// the first item that is wrong taken alone, else when no item is the
    /// type itself, else on the first item that clashes with an earlier one.
    pub fn from_attrs(attrs: &[VersionAttr]) -> (r: Result<Versions, VersionsError>)
        ensures
            match versions_from(attrs@.map_values(|a: VersionAttr| attr_view(a))) {
                Ok(vs) => r matches Ok(v) && v@ == vs,
                Err(e) => r == Err::<Versions, VersionsError>(e),
            },
            r matches Ok(v) ==> valid_versions(v@),
    {
        let ghost av = attrs@.map_values(|a: VersionAttr| attr_view(a));
        assert(attrs@.len() == av.len());
        let mut i: usize = 0;
        while i < attrs.len()
            invariant
                av == attrs@.map_values(|a: VersionAttr| attr_view(a)),
                i <= attrs.len(),
                first_item_error(av, i as int) is None,
                forall|q: int| 0 <= q < i ==> item_error(#[trigger] av[q]) is None,
            decreases attrs.len() - i,
        {
            let a = &attrs[i];
            assert(av[i as int] == attr_view(*a));
            let error = if a.path.is_some() && a.is_self {
                Some(VersionsError::TypeAndSelf)
            } else if a.path.is_none() && !a.is_self {
                Some(VersionsError::MissingTypeOrSelf)
            } else if a.index.is_none() {
                Some(VersionsError::MissingIndex)
            } else {
                None
            };
            if let Some(e) = error {
                proof {
                    lemma_item_error_stable(av, i as int + 1, av.len() as int);
                }
                return Err(e);
            }
            i = i + 1;
        }
        let mut i: usize = 0;
        let mut self_found = false;
        while i < attrs.len()
            invariant
                av == attrs@.map_values(|a: VersionAttr| attr_view(a)),
                i <= attrs.len(),
                self_found <==> exists|q: int| 0 <= q < i && av[q].2,
            decreases attrs.len() - i,
        {
            assert(av[i as int] == attr_view(attrs@[i as int]));
            if attrs[i].is_self {
                self_found = true;
            }
            i = i + 1;
        }
        if !self_found {
            return Err(VersionsError::MissingSelf);
        }
        assert(marks_self(av));
        let mut vs: Vec<Version> = Vec::new();
        let mut i: usize = 0;
        assert(versions_view(vs@) =~= Seq::<VersionView>::empty());
        while i < attrs.len()
            invariant
                av == attrs@.map_values(|a: VersionAttr| attr_view(a)),
                i <= attrs.len(),
                forall|q: int| 0 <= q < av.len() ==> item_error(#[trigger] av[q]) is None,
                first_item_error(av, av.len() as int) is None,
                marks_self(av),
                parsed(av, i as int) == Ok::<Seq<VersionView>, VersionsError>(versions_view(vs@)),
                versions_view(vs@) == av.take(i as int).map_values(|a: AttrView| attr_version(a)),
                forall|p: int, q: int|
                    0 <= p < q < vs@.len() ==> versions_view(vs@)[p].1 != versions_view(vs@)[q].1,
                forall|p: int, q: int|
                    0 <= p < q < vs@.len() ==> !(versions_view(vs@)[p].0 is None && versions_view(
                        vs@,
                    )[q].0 is None),
                forall|p: int, q: int|
                    0 <= p < q < vs@.len() ==> !(versions_view(vs@)[p].2 && versions_view(
                        vs@,
                    )[q].2),
            decreases attrs.len() - i,
        {
            let a = &attrs[i];
            let ghost w = versions_view(vs@);
            assert(av[i as int] == attr_view(*a));
            assert(item_error(av[i as int]) is None);
            let index = match a.index {
                Some(index) => index,
                None => {
                    return Err(VersionsError::MissingIndex);
                },
            };
            if find_index(&vs, index) < vs.len() {
                proof {
                    lemma_parsed_err_stable(av, i as int + 1, av.len() as int);
                }
                return Err(VersionsError::DuplicateIndex(index));
            }
            if a.is_self && find_self(&vs) {
                proof {
                    lemma_parsed_err_stable(av, i as int + 1, av.len() as int);
                }
                return Err(VersionsError::MultipleSelf);
            }
            if a.is_default && find_default(&vs) < vs.len() {
                proof {
                    lemma_parsed_err_stable(av, i as int + 1, av.len() as int);
                }
                return Err(VersionsError::MultipleDefaults);
            }
            let path = match &a.path {
                Some(p) => PathOrSelf::Path(p.clone()),
                None => PathOrSelf::SelfType,
            };
            let ghost prev = vs@;
            vs.push(Version { path, index, is_default: a.is_default });
            proof {
                assert(vs@ == prev.push(vs@.last()));
                assert(versions_view(vs@) =~= w.push(attr_version(av[i as int])));
                assert(av.take(i as int + 1).map_values(|a: AttrView| attr_version(a)) =~= av.take(
                    i as int,
                ).map_values(|a: AttrView| attr_version(a)).push(attr_version(av[i as int])));
            }
            i = i + 1;
        }
        proof {
            let q = choose|q: int| 0 <= q < av.len() && av[q].2;
            assert(av.take(i as int) =~= av);
            assert(item_error(av[q]) is None);
            assert(versions_view(vs@)[q].0 is None);
        }
        Ok(Versions { versions: vs })
    }

    pub fn len(&self) -> (r: usize)
        ensures
            r == self@.len(),
    {
        self.versions.len()
    }

    /// The declared versions, in declaration order.
    pub fn versions(&self) -> (r: &[Version])
        ensures
            versions_view(r@) == self@,
    {
        self.versions.as_slice()
    }

    /// Chooses the schema for a value of type `type_id` whose recorded
    /// version is `recorded`: a declared historical version selects its
    /// schema, the type's own version selects the current shape, an
    /// undeclared version is an error; with no recorded version the default
    /// version is used if there is one, else the current shape.
    pub fn dispatch(&self, type_id: &str, recorded: Option<usize>) -> (r: Result<
        Dispatch,
        InvalidVersionError,
    >)
        ensures
            dispatched(r, self@, type_id@, recorded),
    {
        match recorded {
            Some(v) => {
                let p = find_index(&self.versions, v);
                if p < self.versions.len() {
                    assert(self@[p as int] == version_view(self.versions@[p as int]));
                    match self.versions[p].path {
                        PathOrSelf::SelfType => Ok(Dispatch::Current),
                        PathOrSelf::Path(_) => Ok(Dispatch::Historical(v)),
                    }
                } else {
                    Err(InvalidVersionError { version: v, type_id: type_id.to_owned() })
                }
            },
            None => {
                let d = find_default(&self.versions);
                if d < self.versions.len() {
                    assert(self@[d as int] == version_view(self.versions@[d as int]));
                    match self.versions[d].path {
                        PathOrSelf::SelfType => Ok(Dispatch::Current),
                        PathOrSelf::Path(_) => Ok(Dispatch::Historical(self.versions[d].index)),
                    }
                } else {
                    Ok(Dispatch::Current)
                }
            },
        }
    }

    /// Chooses the schema for a value of type `type_id` by the version that
    /// `version_map` records for it.
    pub fn dispatch_in<VM: VersionMap>(&self, type_id: &str, version_map: &VM) -> (r: Result<
        Dispatch,
        InvalidVersionError,
    >)
        ensures
            dispatched(r, self@, type_id@, lookup(version_map.spec_entries(), type_id@)),
    {
        let recorded = version_map.get(type_id);
        self.dispatch(type_id, recorded)
    }
}

proof fn lemma_no_item_error(attrs: Seq<AttrView>, n: int)
    requires
        0 <= n <= attrs.len(),
        forall|q: int| 0 <= q < attrs.len() ==> item_error(#[trigger] attrs[q]) is None,
    ensures
        first_item_error(attrs, n) is None,
    decreases n,
{
    if n > 0 {
        lemma_no_item_error(attrs, n - 1);
    }
}

/// A list whose items each have a version number and name exactly one of a
/// historical type and the type itself, but none of which is the type
/// itself, is reported as missing the type itself, whatever else repeats.
pub proof fn lemma_missing_self_reported(attrs: Seq<AttrView>)
    requires
        forall|q: int| 0 <= q < attrs.len() ==> item_error(#[trigger] attrs[q]) is None,
        !marks_self(attrs),
    ensures
        versions_from(attrs) == Err::<Seq<VersionView>, VersionsError>(VersionsError::MissingSelf),
{
    lemma_no_item_error(attrs, attrs.len() as int);
}

/// A declared historical version selects its own schema.
pub proof fn lemma_historical_selected(vs: Seq<VersionView>, p: int)
    requires
        valid_versions(vs),
        0 <= p < vs.len(),
        vs[p].0 is Some,
    ensures
        dispatch_spec(vs, Some(vs[p].1)) == Some(Dispatch::Historical(vs[p].1)),
{
    lemma_index_pos(vs, vs[p].1, p);
}

/// The type's own version, or no recorded version when no historical
/// default is declared, selects the current shape.
pub proof fn lemma_current_selected(vs: Seq<VersionView>, recorded: Option<usize>)
    requires
        valid_versions(vs),
        match recorded {
            Some(v) => exists|p: int| 0 <= p < vs.len() && vs[p].1 == v && vs[p].0 is None,
            None => forall|p: int| 0 <= p < vs.len() && vs[p].2 ==> vs[p].0 is None,
        },
    ensures
        dispatch_spec(vs, recorded) == Some(Dispatch::Current),
{
    match recorded {
        Some(v) => {
            let p = choose|p: int| 0 <= p < vs.len() && vs[p].1 == v && vs[p].0 is None;
            lemma_index_pos(vs, v, p);
        },
        None => {
            if has_default(vs) {
                let d = choose|d: int| 0 <= d < vs.len() && vs[d].2;
                lemma_default_pos(vs, d);
            } else {
                lemma_default_pos(vs, vs.len() as int);
            }
        },
    }
}

/// With no recorded version, a declared historical default selects its
/// schema.
pub proof fn lemma_default_selected(vs: Seq<VersionView>, d: int)
    requires
        valid_versions(vs),
        0 <= d < vs.len(),
        vs[d].2,
        vs[d].0 is Some,
    ensures
        dispatch_spec(vs, None) == Some(Dispatch::Historical(vs[d].1)),
{
    lemma_default_pos(vs, d);
}

/// A recorded version that matches no declared version is rejected.
pub proof fn lemma_undeclared_rejected(vs: Seq<VersionView>, v: usize)
    requires
        !has_index(vs, v),
    ensures
        dispatch_spec(vs, Some(v)) is None,
{
    lemma_index_pos(vs, v, vs.len() as int);
}

} // verus!

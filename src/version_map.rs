//! Version maps: the version number recorded for each type identifier.
use vstd::prelude::*;

verus! {

/// A recorded version: a type identifier and its version number.
pub type EntryView = (Seq<char>, usize);

/// The version recorded for `type_id`: the first entry that names it.
pub open spec fn lookup(entries: Seq<EntryView>, type_id: Seq<char>) -> Option<usize>
    decreases entries.len(),
{
    if entries.len() == 0 {
        None
    } else if entries[0].0 == type_id {
        Some(entries[0].1)
    } else {
        lookup(entries.drop_first(), type_id)
    }
}

/// Some entry names `type_id`.
pub open spec fn holds_key(entries: Seq<EntryView>, type_id: Seq<char>) -> bool {
    exists|p: int| 0 <= p < entries.len() && entries[p].0 == type_id
}

/// No two entries name the same type.
pub open spec fn keys_unique(entries: Seq<EntryView>) -> bool {
    forall|p: int, q: int| 0 <= p < q < entries.len() ==> entries[p].0 != entries[q].0
}

pub open spec fn entries_view(v: Seq<(String, usize)>) -> Seq<EntryView> {
    v.map_values(|e: (String, usize)| (e.0@, e.1))
}

/// An entry after recording `version` for `type_id`.
pub open spec fn replaced(e: EntryView, type_id: Seq<char>, version: usize) -> EntryView {
    if e.0 == type_id {
        (type_id, version)
    } else {
        e
    }
}

/// The entries after inserting each pair in turn.
pub open spec fn built_from(pairs: Seq<EntryView>) -> Seq<EntryView>
    decreases pairs.len(),
{
    if pairs.len() == 0 {
        Seq::empty()
    } else {
        let e = pairs.last();
        with_entry(built_from(pairs.drop_last()), e.0, e.1)
    }
}

/// The entries after recording `version` for `type_id`: an entry that names
/// it takes the new version, otherwise a new entry is appended.
pub open spec fn with_entry(entries: Seq<EntryView>, type_id: Seq<char>, version: usize) -> Seq<
    EntryView,
> {
    if holds_key(entries, type_id) {
        entries.map_values(|e: EntryView| replaced(e, type_id, version))
    } else {
        entries.push((type_id, version))
    }
}

proof fn lemma_entries_view_push(v: Seq<(String, usize)>, e: (String, usize))
    ensures
        entries_view(v.push(e)) =~= entries_view(v).push((e.0@, e.1)),
{
    assert(entries_view(v.push(e)).len() == entries_view(v).push((e.0@, e.1)).len());
}

pub proof fn lemma_lookup_some_iff_holds(entries: Seq<EntryView>, type_id: Seq<char>)
    ensures
        lookup(entries, type_id) is Some <==> holds_key(entries, type_id),
        lookup(entries, type_id) matches Some(v) ==> exists|p: int|
            0 <= p < entries.len() && entries[p] == (type_id, v),
    decreases entries.len(),
{
    if entries.len() > 0 {
        let rest = entries.drop_first();
        lemma_lookup_some_iff_holds(rest, type_id);
        if entries[0].0 != type_id {
            if holds_key(entries, type_id) {
                let p = choose|p: int| 0 <= p < entries.len() && entries[p].0 == type_id;
                assert(rest[p - 1].0 == type_id);
            }
            if let Some(v) = lookup(entries, type_id) {
                let p = choose|p: int| 0 <= p < rest.len() && rest[p] == (type_id, v);
                assert(entries[p + 1] == (type_id, v));
            }
        } else {
            assert(entries[0] == (type_id, entries[0].1));
        }
    }
}

/// With unique keys, the entry that names a type gives its version.
pub proof fn lemma_lookup_unique(entries: Seq<EntryView>, p: int)
    requires
        keys_unique(entries),
        0 <= p < entries.len(),
    ensures
        lookup(entries, entries[p].0) == Some(entries[p].1),
    decreases entries.len(),
{
    if p > 0 {
        let rest = entries.drop_first();
        assert(rest[p - 1] == entries[p]);
        lemma_lookup_unique(rest, p - 1);
        assert(entries[0].0 != entries[p].0);
    }
}

/// Maps the version number of each type identifier.
pub trait VersionMapIter {
    /// The recorded entries, in iteration order.
    spec fn spec_entries(&self) -> Seq<EntryView>;

    /// All entries, in iteration order; no type is named twice.
    fn iter(&self) -> (r: Vec<(String, usize)>)
        ensures
            entries_view(r@) == self.spec_entries(),
            keys_unique(self.spec_entries()),
    ;
}

/// Looks up the version recorded for a type identifier.
pub trait VersionMap: VersionMapIter {
    fn get(&self, type_id: &str) -> (r: Option<usize>)
        ensures
            r == lookup(self.spec_entries(), type_id@),
    ;
}

/// The in-memory version map: entries in insertion order, one per type.
#[derive(Debug, PartialEq, Eq)]
pub struct DefaultVersionMap {
    entries: Vec<(String, usize)>,
}

impl View for DefaultVersionMap {
    type V = Seq<EntryView>;

    closed spec fn view(&self) -> Seq<EntryView> {
        entries_view(self.entries@)
    }
}

impl DefaultVersionMap {
    #[verifier::type_invariant]
    spec fn inv(self) -> bool {
        keys_unique(entries_view(self.entries@))
    }

    pub fn new() -> (r: DefaultVersionMap)
        ensures
            r@ == Seq::<EntryView>::empty(),
    {
        let r = DefaultVersionMap { entries: Vec::new() };
        assert(r@ =~= Seq::<EntryView>::empty());
        r
    }

    /// Builds a map from `(type identifier, version)` pairs; a later pair for
    /// the same type replaces an earlier one.
    pub fn from_entries(pairs: Vec<(String, usize)>) -> (r: DefaultVersionMap)
        ensures
            r@ == built_from(entries_view(pairs@)),
    {
        let mut r = DefaultVersionMap::new();
        let mut i: usize = 0;
        while i < pairs.len()
            invariant
                i <= pairs.len(),
                r@ == built_from(entries_view(pairs@).take(i as int)),
            decreases pairs.len() - i,
        {
            let ghost prev = r@;
            r.insert(pairs[i].0.as_str(), pairs[i].1);
            proof {
                let s = entries_view(pairs@);
                assert(s.take(i as int + 1).drop_last() =~= s.take(i as int));
                assert(s.take(i as int + 1).last() == s[i as int]);
                assert(s[i as int] == (pairs@[i as int].0@, pairs@[i as int].1));

            }
            i = i + 1;
        }
        assert(entries_view(pairs@).take(pairs.len() as int) =~= entries_view(pairs@));
        r
    }

    pub fn len(&self) -> (r: usize)
        ensures
            r == self@.len(),
    {
        self.entries.len()
    }

    pub(crate) fn from_unique(entries: Vec<(String, usize)>) -> (r: DefaultVersionMap)
        requires
            keys_unique(entries_view(entries@)),
        ensures
            r@ == entries_view(entries@),
    {
        DefaultVersionMap { entries }
    }

    /// Records `version` for `type_id`, replacing a version recorded before.
    pub fn insert(&mut self, type_id: &str, version: usize)
        ensures
            final(self)@ == with_entry(old(self)@, type_id@, version),
    {
        proof {
            use_type_invariant(&*self);
        }
        let ghost before = self@;
        let key = type_id.to_owned();
        let mut next: Vec<(String, usize)> = Vec::new();
        let mut found = false;
        let mut i: usize = 0;
        while i < self.entries.len()
            invariant
                before == self@,
                key@ == type_id@,
                i <= self.entries.len(),
                found <==> exists|q: int| 0 <= q < i && before[q].0 == type_id@,
                entries_view(next@) =~= before.take(i as int).map_values(
                    |e: EntryView| replaced(e, type_id@, version),
                ),
            decreases self.entries.len() - i,
        {
            let ghost prev = next@;
            if self.entries[i].0 == key {
                next.push((type_id.to_owned(), version));
                found = true;
            } else {
                next.push((self.entries[i].0.clone(), self.entries[i].1));
            }
            proof {
                lemma_entries_view_push(prev, next@.last());
                assert(next@ == prev.push(next@.last()));
                assert(before[i as int] == (self.entries@[i as int].0@, self.entries@[i as int].1));
                assert((next@.last().0@, next@.last().1) == replaced(before[i as int], type_id@, version));
                assert(before.take(i as int + 1).map_values(
                    |e: EntryView| replaced(e, type_id@, version),
                ) =~= before.take(i as int).map_values(
                    |e: EntryView| replaced(e, type_id@, version),
                ).push(replaced(before[i as int], type_id@, version)));
            }
            i = i + 1;
        }
        assert(before.take(i as int) =~= before);
        proof {
            if found {
                assert(holds_key(before, type_id@));
            } else {
                assert(!holds_key(before, type_id@));
                assert(before.map_values(|e: EntryView| replaced(e, type_id@, version)) =~= before);
            }
        }
        if !found {
            let ghost prev = next@;
            next.push((key, version));
            proof {
                lemma_entries_view_push(prev, next@.last());
                assert(next@ == prev.push(next@.last()));
            }
        }
        proof {
            let expected = with_entry(before, type_id@, version);
            assert(entries_view(next@) =~= expected);
            assert forall|p: int, q: int| 0 <= p < q < expected.len() implies expected[p].0
                != expected[q].0 by {
                if !found && q == before.len() {
                    assert(before[p].0 != type_id@);
                } else {
                    assert(before[p].0 != before[q].0);
                }
            }
        }
        self.entries = next;
    }

    /// Position of the entry that names `type_id`, if any.
    fn position(&self, type_id: &str) -> (r: Option<usize>)
        ensures
            r matches Some(p) ==> p < self@.len() && self@[p as int].0 == type_id@,
            r is None ==> !holds_key(self@, type_id@),
    {
        let key = type_id.to_owned();
        let mut i: usize = 0;
        while i < self.entries.len()
            invariant
                key@ == type_id@,
                i <= self.entries.len(),
                forall|q: int| 0 <= q < i ==> self@[q].0 != type_id@,
            decreases self.entries.len() - i,
        {
            if self.entries[i].0 == key {
                return Some(i);
            }
            i = i + 1;
        }
        None
    }
}

impl VersionMapIter for DefaultVersionMap {
    open spec fn spec_entries(&self) -> Seq<EntryView> {
        self@
    }

    fn iter(&self) -> (r: Vec<(String, usize)>) {
        proof {
            use_type_invariant(self);
        }
        let mut r: Vec<(String, usize)> = Vec::new();
        let mut i: usize = 0;
        while i < self.entries.len()
            invariant
                i <= self.entries.len(),
                entries_view(r@) =~= self@.take(i as int),
            decreases self.entries.len() - i,
        {
            let ghost prev = r@;
            r.push((self.entries[i].0.clone(), self.entries[i].1));
            proof {
                lemma_entries_view_push(prev, r@.last());
                assert(r@ == prev.push(r@.last()));
                assert(self@.take(i as int + 1) =~= self@.take(i as int).push(self@[i as int]));
            }
            i = i + 1;
        }
        assert(self@.take(i as int) =~= self@);
        r
    }
}

impl VersionMap for DefaultVersionMap {
    fn get(&self, type_id: &str) -> (r: Option<usize>) {
        proof {
            use_type_invariant(self);
            lemma_lookup_some_iff_holds(self@, type_id@);
        }
        match self.position(type_id) {
            Some(p) => {
                proof {
                    lemma_lookup_unique(self@, p as int);
                }
                Some(self.entries[p].1)
            },
            None => None,
        }
    }
}

} // verus!

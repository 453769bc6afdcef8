//! Version group identifiers of the form `"<api_group>:<version>"`.
use vstd::prelude::*;
use std::borrow::Cow;

verus! {

/// `k` is the position of the one and only `':'` of `s`.
pub open spec fn is_only_colon(s: Seq<char>, k: int) -> bool {
    &&& 0 <= k < s.len()
    &&& s[k] == ':'
    &&& forall|j: int| 0 <= j < s.len() && j != k ==> s[j] != ':'
}

/// `s` holds exactly one `':'`, and it is neither its first nor its last
/// character.
pub open spec fn is_uri_text(s: Seq<char>) -> bool {
    exists|k: int| is_only_colon(s, k) && 0 < k && k + 1 < s.len()
}

/// The text `group + ":" + version`.
pub open spec fn joined(group: Seq<char>, version: Seq<char>) -> Seq<char> {
    group + seq![':'] + version
}

/// Error returned when a text is not of the form `"api_group:version"`.
#[derive(Debug, Clone, PartialEq, Eq, Hash)]
pub struct TryFromError {
    pub source: String,
}

/// A version group identifier: an API group and a version, separated by the
/// one `':'` of the source text.
#[derive(Debug, PartialEq, Eq, Hash)]
pub struct VersionGroupURI {
    source: String,
    index: usize,
}

impl View for VersionGroupURI {
    type V = Seq<char>;

    closed spec fn view(&self) -> Seq<char> {
        self.source@
    }
}

impl VersionGroupURI {
    #[verifier::type_invariant]
    spec fn inv(self) -> bool {
        &&& is_only_colon(self.source@, self.index as int)
        &&& 0 < self.index
        &&& self.index + 1 < self.source@.len()
    }

    /// Position of the separator in the source text.
    pub closed spec fn sep(&self) -> int {
        self.index as int
    }

    pub open spec fn group_view(&self) -> Seq<char> {
        self@.subrange(0, self.sep())
    }

    pub open spec fn version_view(&self) -> Seq<char> {
        self@.subrange(self.sep() + 1, self@.len() as int)
    }

    /// Parses `"api_group:version"`: the text must hold exactly one `':'`,
    /// with text on both sides of it.
    pub fn parse(source: &str) -> (r: Result<VersionGroupURI, TryFromError>)
        ensures
            r is Ok <==> is_uri_text(source@),
            r matches Ok(u) ==> u@ == source@ && is_only_colon(source@, u.sep()),
            r matches Err(e) ==> e.source@ == source@,
    {
        let n = source.unicode_len();
        let mut pos: Option<usize> = None;
        let mut i: usize = 0;
        while i < n
            invariant
                n == source@.len(),
                i <= n,
                pos is None ==> forall|j: int| 0 <= j < i ==> source@[j] != ':',
                pos matches Some(p) ==> {
                    &&& p < i
                    &&& source@[p as int] == ':'
                    &&& forall|j: int| 0 <= j < i && j != p ==> source@[j] != ':'
                },
            decreases n - i,
        {
            if source.get_char(i) == ':' {
                if let Some(p) = pos {
                    proof {
                        assert forall|k: int| is_only_colon(source@, k) implies false by {
                            if k != p {
                                assert(source@[p as int] == ':');
                            } else {
                                assert(source@[i as int] == ':');
                            }
                        }
                    }
                    return Err(TryFromError { source: source.to_owned() });
                }
                pos = Some(i);
            }
            i = i + 1;
        }
        match pos {
            None => {
                proof {
                    assert forall|k: int| is_only_colon(source@, k) implies false by {
                        assert(source@[k] == ':');
                    }
                }
                Err(TryFromError { source: source.to_owned() })
            },
            Some(p) => {
                proof {
                    assert(is_only_colon(source@, p as int));
                    assert forall|k: int| is_only_colon(source@, k) implies k == p by {
                        if k != p {
                            assert(source@[p as int] == ':');
                        }
                    }
                }
                if p == 0 || p + 1 >= n {
                    Err(TryFromError { source: source.to_owned() })
                } else {
                    Ok(VersionGroupURI { source: source.to_owned(), index: p })
                }
            },
        }
    }

    /// Parses an owned `"api_group:version"` text.
    pub fn parse_string(source: String) -> (r: Result<VersionGroupURI, TryFromError>)
        ensures
            r is Ok <==> is_uri_text(source@),
            r matches Ok(u) ==> u@ == source@ && is_only_colon(source@, u.sep()),
            r matches Err(e) ==> e.source@ == source@,
    {
        VersionGroupURI::parse(source.as_str())
    }

    /// The text before the separator.
    pub fn api_group(&self) -> (r: &str)
        ensures
            r@ == self.group_view(),
    {
        proof {
            use_type_invariant(self);
        }
        self.source.as_str().substring_char(0, self.index)
    }

    /// The text after the separator.
    pub fn version(&self) -> (r: &str)
        ensures
            r@ == self.version_view(),
    {
        proof {
            use_type_invariant(self);
        }
        let n = self.source.as_str().unicode_len();
        self.source.as_str().substring_char(self.index + 1, n)
    }

    /// The whole source text.
    pub fn as_str(&self) -> (r: &str)
        ensures
            r@ == self@,
    {
        self.source.as_str()
    }

    /// The whole source text, owned.
    pub fn to_string(&self) -> (r: String)
        ensures
            r@ == self@,
    {
        self.source.clone()
    }

    /// An owned copy, independent of the buffer the identifier was read from.
    pub fn to_static(&self) -> (r: VersionGroupURI)
        ensures
            r@ == self@,
            r.sep() == self.sep(),
    {
        proof {
            use_type_invariant(self);
        }
        VersionGroupURI { source: self.source.clone(), index: self.index }
    }
}

impl<'a> vstd::std_specs::convert::TryFromSpecImpl<&'a str> for VersionGroupURI {
    open spec fn obeys_try_from_spec() -> bool {
        false
    }

    open spec fn try_from_spec(v: &'a str) -> Result<VersionGroupURI, TryFromError> {
        arbitrary()
    }
}

impl<'a> TryFrom<&'a str> for VersionGroupURI {
    type Error = TryFromError;

    fn try_from(source: &'a str) -> (r: Result<VersionGroupURI, TryFromError>)
        ensures
            r is Ok <==> is_uri_text(source@),
            r matches Ok(u) ==> u@ == source@ && is_only_colon(source@, u.sep()),
            r matches Err(e) ==> e.source@ == source@,
    {
        VersionGroupURI::parse(source)
    }
}

impl vstd::std_specs::convert::TryFromSpecImpl<String> for VersionGroupURI {
    open spec fn obeys_try_from_spec() -> bool {
        false
    }

    open spec fn try_from_spec(v: String) -> Result<VersionGroupURI, TryFromError> {
        arbitrary()
    }
}

impl TryFrom<String> for VersionGroupURI {
    type Error = TryFromError;

    fn try_from(source: String) -> (r: Result<VersionGroupURI, TryFromError>)
        ensures
            r is Ok <==> is_uri_text(source@),
            r matches Ok(u) ==> u@ == source@ && is_only_colon(source@, u.sep()),
            r matches Err(e) ==> e.source@ == source@,
    {
        VersionGroupURI::parse_string(source)
    }
}

impl<'a> vstd::std_specs::convert::TryFromSpecImpl<Cow<'a, str>> for VersionGroupURI {
    open spec fn obeys_try_from_spec() -> bool {
        false
    }

    open spec fn try_from_spec(v: Cow<'a, str>) -> Result<VersionGroupURI, TryFromError> {
        arbitrary()
    }
}

impl<'a> TryFrom<Cow<'a, str>> for VersionGroupURI {
    type Error = TryFromError;

    fn try_from(source: Cow<'a, str>) -> (r: Result<VersionGroupURI, TryFromError>)
        ensures
            r is Ok <==> is_uri_text(source@),
            r matches Ok(u) ==> u@ == source@ && is_only_colon(source@, u.sep()),
            r matches Err(e) ==> e.source@ == source@,
    {
        match source {
            Cow::Borrowed(s) => VersionGroupURI::parse(s),
            Cow::Owned(s) => VersionGroupURI::parse_string(s),
        }
    }
}

impl Clone for VersionGroupURI {
    fn clone(&self) -> (r: VersionGroupURI)
        ensures
            r@ == self@,
            r.sep() == self.sep(),
    {
        self.to_static()
    }
}

/// Parsing an identifier written as `group:version` gives back both parts
/// exactly, whenever neither part is empty or holds a `':'`.
pub proof fn lemma_uri_round_trip(group: Seq<char>, version: Seq<char>)
    requires
        group.len() > 0,
        version.len() > 0,
        forall|j: int| 0 <= j < group.len() ==> group[j] != ':',
        forall|j: int| 0 <= j < version.len() ==> version[j] != ':',
    ensures
        is_uri_text(joined(group, version)),
        forall|k: int|
            is_only_colon(joined(group, version), k) ==> {
                &&& k == group.len()
                &&& joined(group, version).subrange(0, k) == group
                &&& joined(group, version).subrange(k + 1, joined(group, version).len() as int)
                    == version
            },
{
    let s = joined(group, version);
    let g = group.len() as int;
    assert forall|j: int| 0 <= j < s.len() && j != g implies s[j] != ':' by {
        if j < g {
            assert(s[j] == group[j]);
        } else {
            assert(s[j] == version[j - g - 1]);
        }
    }
    assert(is_only_colon(s, g));
    assert forall|k: int| is_only_colon(s, k) implies {
        &&& k == group.len()
        &&& s.subrange(0, k) == group
        &&& s.subrange(k + 1, s.len() as int) == version
    } by {
        if k != g {
            assert(s[g] == ':');
        }
        assert(s.subrange(0, k) =~= group);
        assert(s.subrange(k + 1, s.len() as int) =~= version);
    }
}

/// An identifier parsed from `group:version` reads back `group` as its API
/// group and `version` as its version.
pub proof fn lemma_parsed_parts(u: VersionGroupURI, group: Seq<char>, version: Seq<char>)
    requires
        group.len() > 0,
        version.len() > 0,
        forall|j: int| 0 <= j < group.len() ==> group[j] != ':',
        forall|j: int| 0 <= j < version.len() ==> version[j] != ':',
        u@ == joined(group, version),
        is_only_colon(u@, u.sep()),
    ensures
        u.group_view() == group,
        u.version_view() == version,
{
    lemma_uri_round_trip(group, version);
}

/// A text without a `':'`, with a `':'` at its start or end, or with two or
/// more `':'`, is never an identifier.
pub proof fn lemma_malformed_rejected(s: Seq<char>)
    requires
        (forall|j: int| 0 <= j < s.len() ==> s[j] != ':')
        || (s.len() > 0 && s[0] == ':')
        || (s.len() > 0 && s[s.len() - 1] == ':')
        || (exists|a: int, b: int| 0 <= a < b < s.len() && s[a] == ':' && s[b] == ':'),
    ensures
        !is_uri_text(s),
{
    if is_uri_text(s) {
        let k = choose|k: int| is_only_colon(s, k) && 0 < k && k + 1 < s.len();
        if s.len() > 0 && s[0] == ':' {
            assert(s[0] != ':');
        }
        if s.len() > 0 && s[s.len() - 1] == ':' {
            assert(s[s.len() - 1] != ':');
        }
        if exists|a: int, b: int| 0 <= a < b < s.len() && s[a] == ':' && s[b] == ':' {
            let (a, b) = choose|a: int, b: int| 0 <= a < b < s.len() && s[a] == ':' && s[b] == ':';
            assert(a == k && b == k);
        }
    }
}

/// The ordered list of version group identifiers that heads a document.
#[derive(Debug, PartialEq, Eq, Hash)]
pub struct VersionGroupURIs {
    v: Vec<VersionGroupURI>,
}

impl View for VersionGroupURIs {
    type V = Seq<VersionGroupURI>;

    closed spec fn view(&self) -> Seq<VersionGroupURI> {
        self.v@
    }
}

impl VersionGroupURIs {
    pub fn new(v: Vec<VersionGroupURI>) -> (r: VersionGroupURIs)
        ensures
            r@ == v@,
    {
        VersionGroupURIs { v }
    }

    /// The identifiers, in header order.
    pub fn versions(&self) -> (r: &[VersionGroupURI])
        ensures
            r@ == self@,
    {
        self.v.as_slice()
    }

    pub fn len(&self) -> (r: usize)
        ensures
            r == self@.len(),
    {
        self.v.len()
    }
}

impl Clone for VersionGroupURIs {
    fn clone(&self) -> (r: VersionGroupURIs)
        ensures
            r@.len() == self@.len(),
            forall|i: int| 0 <= i < self@.len() ==> r@[i]@ == self@[i]@ && r@[i].sep() == self@[i].sep(),
    {
        let mut v: Vec<VersionGroupURI> = Vec::new();
        let mut i: usize = 0;
        while i < self.v.len()
            invariant
                i <= self.v.len(),
                v@.len() == i,
                forall|j: int| 0 <= j < i ==> v@[j]@ == self@[j]@ && v@[j].sep() == self@[j].sep(),
            decreases self.v.len() - i,
        {
            v.push(self.v[i].to_static());
            i = i + 1;
        }
        VersionGroupURIs { v }
    }
}

} // verus!

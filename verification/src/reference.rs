//! Package identifiers and references: the `name@version` form that keys
//! the store, the cache, and the ledger.

use crate::text::lemma_split_on_concat;
use crate::text::lemma_split_on_whole;
use crate::text::push_char;
use crate::text::split_on;
use crate::text::split_string;
use crate::text::str_to_string;
use crate::version::is_ident_char;
use crate::version::parse_version;
use crate::version::parse_version_str;
use crate::version::version_str;
use crate::version::version_wf;
use crate::version::Version;
use crate::version::VersionView;
use crate::text::is_digit;
use vstd::prelude::*;

verus! {

pub open spec fn is_alpha(c: char) -> bool {
    ('a' <= c && c <= 'z') || ('A' <= c && c <= 'Z')
}

pub open spec fn is_name_char(c: char) -> bool {
    is_alpha(c) || is_digit(c) || c == '-' || c == '_'
}

/// A package name: one to fifty characters, a letter first, then letters,
/// digits, hyphens and underscores.
pub open spec fn valid_pkg_name(s: Seq<char>) -> bool {
    &&& 1 <= s.len() <= 50
    &&& is_alpha(s[0])
    &&& forall|i: int| 0 <= i < s.len() ==> is_name_char(#[trigger] s[i])
}

/// The external form of a reference: `name@version`.
pub open spec fn ref_str(name: Seq<char>, v: VersionView) -> Seq<char> {
    name + seq!['@'] + version_str(v)
}

/// Reads a reference: a single `@`, the version after it.
pub open spec fn parse_ref(s: Seq<char>) -> Option<(Seq<char>, VersionView)> {
    let parts = split_on(s, '@');
    if parts.len() != 2 {
        None
    } else {
        match parse_version(parts[1]) {
            None => None,
            Some(v) => Some((parts[0], v)),
        }
    }
}

/// The primary key of a package in store and ledger: the text
/// `name@version`.
#[derive(Clone, Debug, PartialEq, Eq, Hash)]
pub struct PackageId(pub String);

impl View for PackageId {
    type V = Seq<char>;

    open spec fn view(&self) -> Seq<char> {
        self.0@
    }
}

impl PackageId {
    /// The key of this name and version.
    pub fn new(name: &str, version: &Version) -> (r: PackageId)
        ensures
            r@ == ref_str(name@, version@),
    {
        let mut s = str_to_string(name);
        push_char(&mut s, '@');
        let vs = version.to_string();
        s.append(vs.as_str());
        proof {
            assert(s@ =~= ref_str(name@, version@));
        }
        PackageId(s)
    }

    /// The key as text.
    pub fn as_str(&self) -> (r: &str)
        ensures
            r@ == self@,
    {
        self.0.as_str()
    }

    /// A copy of the key.
    pub fn duplicate(&self) -> (r: PackageId)
        ensures
            r@ == self@,
    {
        PackageId(str_to_string(self.0.as_str()))
    }

    /// Whether the two keys agree.
    pub fn same(&self, other: &PackageId) -> (r: bool)
        ensures
            r == (self@ == other@),
    {
        crate::text::str_eq(self.0.as_str(), other.0.as_str())
    }
}

/// A name and a version: the value handed across every interface.
#[derive(Clone, Debug, PartialEq, Eq, Hash)]
pub struct PackageReference {
    pub name: String,
    pub version: Version,
}

impl PackageReference {
    pub fn new(name: String, version: Version) -> (r: PackageReference)
        ensures
            r.name@ == name@,
            r.version@ == version@,
    {
        PackageReference { name, version }
    }

    /// The reference naming a package.
    pub fn from_package(package: &crate::package::Package) -> (r: PackageReference)
        ensures
            r.name@ == package.name@,
            r.version@ == package.version@,
    {
        PackageReference {
            name: crate::text::str_to_string(package.name.as_str()),
            version: package.version.duplicate(),
        }
    }

    /// The key `name@version`.
    pub fn id(&self) -> (r: String)
        ensures
            r@ == ref_str(self.name@, self.version@),
    {
        let mut s = str_to_string(self.name.as_str());
        push_char(&mut s, '@');
        let vs = self.version.to_string();
        s.append(vs.as_str());
        proof {
            assert(s@ =~= ref_str(self.name@, self.version@));
        }
        s
    }

    /// The same key, as a `PackageId`.
    pub fn package_id(&self) -> (r: PackageId)
        ensures
            r@ == ref_str(self.name@, self.version@),
    {
        PackageId::new(self.name.as_str(), &self.version)
    }

    /// The external form; identical to the key.
    pub fn to_string(&self) -> (r: String)
        ensures
            r@ == ref_str(self.name@, self.version@),
    {
        self.id()
    }

    /// Whether the two references name the same package.
    pub fn matches(&self, other: &PackageReference) -> (r: bool)
        ensures
            r == (self.name@ == other.name@ && self.version@ == other.version@),
    {
        crate::text::str_eq(self.name.as_str(), other.name.as_str()) && self.version.same(
            &other.version,
        )
    }

    /// A field-by-field copy.
    pub fn duplicate(&self) -> (r: PackageReference)
        ensures
            r.name@ == self.name@,
            r.version@ == self.version@,
    {
        PackageReference {
            name: str_to_string(self.name.as_str()),
            version: self.version.duplicate(),
        }
    }

    /// Reads a reference from its external form. The error is the offending
    /// text.
    pub fn try_from(s: &str) -> (r: Result<PackageReference, String>)
        ensures
            match r {
                Ok(pr) => parse_ref(s@) == Some((pr.name@, pr.version@)),
                Err(_) => parse_ref(s@) is None,
            },
    {
        let parts = split_string(s, '@');
        let ghost pv = split_on(s@, '@');
        proof {
            assert(parts@.map_values(|t: String| t@).len() == pv.len());
        }
        if parts.len() != 2 {
            return Err(str_to_string(s));
        }
        proof {
            assert(pv[0] == parts@.map_values(|t: String| t@)[0]);
            assert(pv[1] == parts@.map_values(|t: String| t@)[1]);
        }
        match parse_version_str(parts[1].as_str()) {
            Some(v) => Ok(PackageReference { name: str_to_string(parts[0].as_str()), version: v }),
            None => Err(str_to_string(s)),
        }
    }
}

/// No character of a well-formed version's text is `@`.
proof fn lemma_version_str_no_at(v: VersionView)
    requires
        version_wf(v),
    ensures
        forall|i: int| 0 <= i < version_str(v).len() ==> #[trigger] version_str(v)[i] != '@',
{
    crate::version::lemma_core_chars(v);
    let a = crate::text::dec_str(v.major);
    let b = crate::text::dec_str(v.minor);
    let c = crate::text::dec_str(v.patch);
    let core = a + seq!['.'] + b + seq!['.'] + c;
    let s = version_str(v);
    assert forall|i: int| 0 <= i < s.len() implies s[i] != '@' by {
        let p = if v.pre.len() > 0 {
            core + seq!['-'] + v.pre
        } else {
            core
        };
        assert(s =~= if v.build.len() > 0 {
            p + seq!['+'] + v.build
        } else {
            p
        });
        if i < core.len() {
            assert(s[i] == core[i]);
            assert(is_digit(core[i]) || core[i] == '.');
        } else if i < p.len() {
            if i == core.len() {
                assert(s[i] == '-');
            } else {
                assert(s[i] == v.pre[i - core.len() - 1]);
                assert(is_ident_char(v.pre[i - core.len() - 1]) || v.pre[i - core.len() - 1]
                    == '.');
            }
        } else if i == p.len() {
            assert(s[i] == '+');
        } else {
            assert(s[i] == v.build[i - p.len() - 1]);
            assert(is_ident_char(v.build[i - p.len() - 1]) || v.build[i - p.len() - 1] == '.');
        }
    }
}

/// Round trip: reading back the external form of a reference gives the
/// same name and version.
pub proof fn lemma_reference_round_trip(name: Seq<char>, v: VersionView)
    requires
        valid_pkg_name(name),
        version_wf(v),
    ensures
        parse_ref(ref_str(name, v)) == Some((name, v)),
{
    let vs = version_str(v);
    lemma_version_str_no_at(v);
    assert(forall|i: int| 0 <= i < name.len() ==> #[trigger] name[i] != '@');
    lemma_split_on_whole(name, '@');
    lemma_split_on_whole(vs, '@');
    lemma_split_on_concat(name, vs, '@');
    let s = ref_str(name, v);
    assert(split_on(s, '@') == seq![name] + seq![vs]);
    assert(split_on(s, '@') =~= seq![name, vs]);
    assert(split_on(s, '@')[0] == name);
    assert(split_on(s, '@')[1] == vs);
    crate::version::lemma_version_round_trip(v);
}

} // verus!

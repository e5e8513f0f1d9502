//! Semantic versions: the data model, the canonical text form
//! `major.minor.patch[-pre][+build]`, parsing, and ordering.

use crate::text::all_digits;
use crate::text::digit_val;
use crate::text::dec_str;
use crate::text::dec_val;
use crate::text::find_idx;
use crate::text::is_canonical_numeral;
use crate::text::is_digit;
use crate::text::lemma_dec_round_trip;
use crate::text::lemma_dec_str_canonical;
use crate::text::lemma_find_idx_is;
use crate::text::lemma_find_idx_none;
use crate::text::lemma_split_on_concat;
use crate::text::lemma_split_on_whole;
use crate::text::parse_u64;
use crate::text::push_char;
use crate::text::split_on;
use crate::text::split_string;
use crate::text::str_to_string;
use crate::text::u64_to_dec;
use vstd::prelude::*;

verus! {

/// The mathematical value of a version.
pub struct VersionView {
    pub major: nat,
    pub minor: nat,
    pub patch: nat,
    pub pre: Seq<char>,
    pub build: Seq<char>,
}

/// A semantic version. `pre` and `build` are empty when absent.
#[derive(Clone, Debug, PartialEq, Eq, Hash)]
pub struct Version {
    pub major: u64,
    pub minor: u64,
    pub patch: u64,
    pub pre: String,
    pub build: String,
}

impl View for Version {
    type V = VersionView;

    open spec fn view(&self) -> VersionView {
        VersionView {
            major: self.major as nat,
            minor: self.minor as nat,
            patch: self.patch as nat,
            pre: self.pre@,
            build: self.build@,
        }
    }
}

pub open spec fn is_ident_char(c: char) -> bool {
    is_digit(c) || ('a' <= c && c <= 'z') || ('A' <= c && c <= 'Z') || c == '-'
}

/// A pre-release segment: nonempty, identifier characters, and a numeric
/// segment carries no leading zero.
pub open spec fn valid_pre_segment(t: Seq<char>) -> bool {
    &&& t.len() > 0
    &&& forall|i: int| 0 <= i < t.len() ==> is_ident_char(#[trigger] t[i])
    &&& (all_digits(t) && t.len() > 1 ==> t[0] != '0')
}

/// A build segment: nonempty identifier characters.
pub open spec fn valid_build_segment(t: Seq<char>) -> bool {
    &&& t.len() > 0
    &&& forall|i: int| 0 <= i < t.len() ==> is_ident_char(#[trigger] t[i])
}

/// An absent or dot-separated, well-formed pre-release label.
pub open spec fn valid_pre(p: Seq<char>) -> bool {
    p.len() == 0 || {
        &&& forall|i: int| 0 <= i < p.len() ==> is_ident_char(#[trigger] p[i]) || p[i] == '.'
        &&& forall|k: int|
            0 <= k < split_on(p, '.').len() ==> valid_pre_segment(#[trigger] split_on(p, '.')[k])
    }
}

/// An absent or dot-separated, well-formed build label.
pub open spec fn valid_build(b: Seq<char>) -> bool {
    b.len() == 0 || {
        &&& forall|i: int| 0 <= i < b.len() ==> is_ident_char(#[trigger] b[i]) || b[i] == '.'
        &&& forall|k: int|
            0 <= k < split_on(b, '.').len() ==> valid_build_segment(#[trigger] split_on(b, '.')[k])
    }
}

/// A version this library can hold: labels well formed, numbers machine
/// sized.
pub open spec fn version_wf(v: VersionView) -> bool {
    &&& valid_pre(v.pre)
    &&& valid_build(v.build)
    &&& v.major <= u64::MAX
    &&& v.minor <= u64::MAX
    &&& v.patch <= u64::MAX
}

/// The canonical text of a version.
pub open spec fn version_str(v: VersionView) -> Seq<char> {
    dec_str(v.major) + seq!['.'] + dec_str(v.minor) + seq!['.'] + dec_str(v.patch) + (if v.pre.len()
        > 0 {
        seq!['-'] + v.pre
    } else {
        Seq::<char>::empty()
    }) + (if v.build.len() > 0 {
        seq!['+'] + v.build
    } else {
        Seq::<char>::empty()
    })
}

/// Reads a version from its text: the numeric triple, then an optional
/// pre-release label after `-`, then an optional build label after `+`.
pub open spec fn parse_version(s: Seq<char>) -> Option<VersionView> {
    let ip = find_idx(s, '+');
    let rest = if ip >= 0 {
        s.subrange(0, ip)
    } else {
        s
    };
    let build = if ip >= 0 {
        s.subrange(ip + 1, s.len() as int)
    } else {
        Seq::<char>::empty()
    };
    let id = find_idx(rest, '-');
    let core = if id >= 0 {
        rest.subrange(0, id)
    } else {
        rest
    };
    let pre = if id >= 0 {
        rest.subrange(id + 1, rest.len() as int)
    } else {
        Seq::<char>::empty()
    };
    let segs = split_on(core, '.');
    if segs.len() == 3 && is_canonical_numeral(segs[0]) && is_canonical_numeral(segs[1])
        && is_canonical_numeral(segs[2]) && dec_val(segs[0]) <= u64::MAX && dec_val(segs[1])
        <= u64::MAX && dec_val(segs[2]) <= u64::MAX && (ip >= 0 ==> build.len() > 0) && (id >= 0
        ==> pre.len() > 0) && valid_pre(pre) && valid_build(build) {
        Some(
            VersionView {
                major: dec_val(segs[0]),
                minor: dec_val(segs[1]),
                patch: dec_val(segs[2]),
                pre,
                build,
            },
        )
    } else {
        None
    }
}

impl Version {
    /// A plain numeric version.
    pub fn new(major: u64, minor: u64, patch: u64) -> (r: Version)
        ensures
            r@ == (VersionView {
                major: major as nat,
                minor: minor as nat,
                patch: patch as nat,
                pre: Seq::<char>::empty(),
                build: Seq::<char>::empty(),
            }),
            version_wf(r@),
    {
        let r = Version { major, minor, patch, pre: String::new(), build: String::new() };
        r
    }

    /// Writes the canonical text of this version.
    pub fn to_string(&self) -> (r: String)
        ensures
            r@ == version_str(self@),
    {
        let mut r = u64_to_dec(self.major);
        push_char(&mut r, '.');
        let minor_s = u64_to_dec(self.minor);
        r.append(minor_s.as_str());
        push_char(&mut r, '.');
        let patch_s = u64_to_dec(self.patch);
        r.append(patch_s.as_str());
        if self.pre.as_str().unicode_len() > 0 {
            push_char(&mut r, '-');
            r.append(self.pre.as_str());
        }
        if self.build.as_str().unicode_len() > 0 {
            push_char(&mut r, '+');
            r.append(self.build.as_str());
        }
        proof {
            assert(r@ =~= version_str(self@));
        }
        r
    }
}

/// Whether every character is an identifier character, and whether every
/// character is a digit.
fn scan_segment(s: &str) -> (r: (bool, bool))
    ensures
        r.0 == (forall|i: int| 0 <= i < s@.len() ==> is_ident_char(#[trigger] s@[i])),
        r.1 == all_digits(s@),
{
    let n = s.unicode_len();
    let mut all_ident = true;
    let mut digits = true;
    let mut i: usize = 0;
    while i < n
        invariant
            0 <= i <= n,
            n == s@.len(),
            all_ident == (forall|j: int| 0 <= j < i ==> is_ident_char(#[trigger] s@[j])),
            digits == (forall|j: int| 0 <= j < i ==> is_digit(#[trigger] s@[j])),
        decreases n - i,
    {
        let c = s.get_char(i);
        let ident = (c >= '0' && c <= '9') || (c >= 'a' && c <= 'z') || (c >= 'A' && c <= 'Z') || c
            == '-';
        let dig = c >= '0' && c <= '9';
        if !ident {
            all_ident = false;
        }
        if !dig {
            digits = false;
        }
        i = i + 1;
    }
    (all_ident, digits)
}

/// Checks one dot-separated label against the given segment rule.
fn check_label(s: &str, zero_rule: bool) -> (r: bool)
    ensures
        zero_rule ==> r == valid_pre(s@),
        !zero_rule ==> r == valid_build(s@),
{
    let n = s.unicode_len();
    if n == 0 {
        return true;
    }
    let mut i: usize = 0;
    while i < n
        invariant
            0 <= i <= n,
            n == s@.len(),
            forall|j: int| 0 <= j < i ==> is_ident_char(#[trigger] s@[j]) || s@[j] == '.',
        decreases n - i,
    {
        let c = s.get_char(i);
        let ok = (c >= '0' && c <= '9') || (c >= 'a' && c <= 'z') || (c >= 'A' && c <= 'Z') || c
            == '-' || c == '.';
        if !ok {
            assert(!is_ident_char(s@[i as int]) && s@[i as int] != '.');
            return false;
        }
        i = i + 1;
    }
    let segs = split_string(s, '.');
    let m = segs.len();
    let ghost sp = split_on(s@, '.');
    proof {
        assert(segs@.map_values(|t: String| t@).len() == sp.len());
    }
    let mut k: usize = 0;
    while k < m
        invariant
            0 <= k <= m,
            m == sp.len(),
            s@.len() > 0,
            segs@.map_values(|t: String| t@) == sp,
            sp == split_on(s@, '.'),
            forall|j: int|
                0 <= j < k ==> (if zero_rule {
                    valid_pre_segment(#[trigger] sp[j])
                } else {
                    valid_build_segment(sp[j])
                }),
        decreases m - k,
    {
        let seg = &segs[k];
        proof {
            assert(sp[k as int] == segs@.map_values(|t: String| t@)[k as int]);
        }
        let (all_ident, digits) = scan_segment(seg.as_str());
        let sl = seg.as_str().unicode_len();
        if sl == 0 || !all_ident {
            proof {
                assert(split_on(s@, '.')[k as int] == sp[k as int]);
                assert(!valid_pre_segment(sp[k as int]));
                assert(!valid_build_segment(sp[k as int]));
            }
            return false;
        }
        if zero_rule && digits && sl > 1 {
            if seg.as_str().get_char(0) == '0' {
                proof {
                    assert(split_on(s@, '.')[k as int] == sp[k as int]);
                    assert(!valid_pre_segment(sp[k as int]));
                }
                return false;
            }
        }
        k = k + 1;
    }
    true
}

/// Checks a pre-release label.
pub fn check_label_pre(s: &str) -> (r: bool)
    ensures
        r == valid_pre(s@),
{
    check_label(s, true)
}

/// Checks a build label.
pub fn check_label_build(s: &str) -> (r: bool)
    ensures
        r == valid_build(s@),
{
    check_label(s, false)
}

/// Reads a version; `None` on anything but the canonical form.
pub fn parse_version_str(s: &str) -> (r: Option<Version>)
    ensures
        match r {
            Some(v) => parse_version(s@) == Some(v@) && version_wf(v@),
            None => parse_version(s@) is None,
        },
{
    let n = s.unicode_len();
    let plus = crate::text::find_char(s, '+');
    let has_plus = plus.is_some();
    let (rest, build) = match plus {
        Some(i) => {
            proof {
                lemma_find_idx_is(s@, '+', i as int);
            }
            (s.substring_char(0, i), s.substring_char(i + 1, n))
        },
        None => {
            proof {
                lemma_find_idx_none(s@, '+');
            }
            (s.substring_char(0, n), s.substring_char(n, n))
        },
    };
    let ghost ip = find_idx(s@, '+');
    proof {
        if ip >= 0 {
            assert(rest@ =~= s@.subrange(0, ip));
            assert(build@ =~= s@.subrange(ip + 1, s@.len() as int));
        } else {
            assert(rest@ =~= s@);
            assert(build@ =~= Seq::<char>::empty());
        }
    }
    let rn = rest.unicode_len();
    let dash = crate::text::find_char(rest, '-');
    let has_dash = dash.is_some();
    let (core, pre) = match dash {
        Some(i) => {
            proof {
                lemma_find_idx_is(rest@, '-', i as int);
            }
            (rest.substring_char(0, i), rest.substring_char(i + 1, rn))
        },
        None => {
            proof {
                lemma_find_idx_none(rest@, '-');
            }
            (rest.substring_char(0, rn), rest.substring_char(rn, rn))
        },
    };
    let ghost id = find_idx(rest@, '-');
    proof {
        if id >= 0 {
            assert(core@ =~= rest@.subrange(0, id));
            assert(pre@ =~= rest@.subrange(id + 1, rest@.len() as int));
        } else {
            assert(core@ =~= rest@);
            assert(pre@ =~= Seq::<char>::empty());
        }
    }
    let segs = split_string(core, '.');
    let ghost sp = split_on(core@, '.');
    proof {
        assert(segs@.map_values(|t: String| t@).len() == sp.len());
    }
    if segs.len() != 3 {
        return None;
    }
    proof {
        assert(sp[0] == segs@.map_values(|t: String| t@)[0]);
        assert(sp[1] == segs@.map_values(|t: String| t@)[1]);
        assert(sp[2] == segs@.map_values(|t: String| t@)[2]);
    }
    let major = match parse_u64(segs[0].as_str()) {
        Some(v) => v,
        None => {
            return None;
        },
    };
    let minor = match parse_u64(segs[1].as_str()) {
        Some(v) => v,
        None => {
            return None;
        },
    };
    let patch = match parse_u64(segs[2].as_str()) {
        Some(v) => v,
        None => {
            return None;
        },
    };
    if segs[0].as_str().unicode_len() > 1 && segs[0].as_str().get_char(0) == '0' {
        return None;
    }
    if segs[1].as_str().unicode_len() > 1 && segs[1].as_str().get_char(0) == '0' {
        return None;
    }
    if segs[2].as_str().unicode_len() > 1 && segs[2].as_str().get_char(0) == '0' {
        return None;
    }
    let pn = pre.unicode_len();
    let bn = build.unicode_len();
    if has_dash && pn == 0 {
        return None;
    }
    if has_plus && bn == 0 {
        return None;
    }
    if !check_label(pre, true) {
        return None;
    }
    if !check_label(build, false) {
        return None;
    }
    let v = Version {
        major,
        minor,
        patch,
        pre: str_to_string(pre),
        build: str_to_string(build),
    };
    Some(v)
}

/// The numeric triple of the canonical text holds digits and dots only.
pub proof fn lemma_core_chars(v: VersionView)
    ensures
        forall|i: int|
            0 <= i < (dec_str(v.major) + seq!['.'] + dec_str(v.minor) + seq!['.'] + dec_str(
                v.patch,
            )).len() ==> is_digit(
                #[trigger] (dec_str(v.major) + seq!['.'] + dec_str(v.minor) + seq!['.'] + dec_str(
                    v.patch,
                ))[i],
            ) || (dec_str(v.major) + seq!['.'] + dec_str(v.minor) + seq!['.'] + dec_str(
                v.patch,
            ))[i] == '.',
{
    lemma_dec_str_canonical(v.major);
    lemma_dec_str_canonical(v.minor);
    lemma_dec_str_canonical(v.patch);
    let a = dec_str(v.major);
    let b = dec_str(v.minor);
    let c = dec_str(v.patch);
    let core = a + seq!['.'] + b + seq!['.'] + c;
    assert forall|i: int| 0 <= i < core.len() implies is_digit(#[trigger] core[i]) || core[i]
        == '.' by {
        if i < a.len() {
            assert(core[i] == a[i]);
        } else if i == a.len() {
            assert(core[i] == '.');
        } else if i < a.len() + 1 + b.len() {
            assert(core[i] == b[i - a.len() - 1]);
        } else if i == a.len() + 1 + b.len() {
            assert(core[i] == '.');
        } else {
            assert(core[i] == c[i - a.len() - 1 - b.len() - 1]);
        }
    }
}

/// Parsing the canonical text of a well-formed version gives the version
/// back.
pub proof fn lemma_version_round_trip(v: VersionView)
    requires
        version_wf(v),
    ensures
        parse_version(version_str(v)) == Some(v),
{
    lemma_dec_str_canonical(v.major);
    lemma_dec_str_canonical(v.minor);
    lemma_dec_str_canonical(v.patch);
    lemma_dec_round_trip(v.major);
    lemma_dec_round_trip(v.minor);
    lemma_dec_round_trip(v.patch);
    let a = dec_str(v.major);
    let b = dec_str(v.minor);
    let c = dec_str(v.patch);
    let core = a + seq!['.'] + b + seq!['.'] + c;
    lemma_core_chars(v);
    let p = if v.pre.len() > 0 {
        core + seq!['-'] + v.pre
    } else {
        core
    };
    let s = version_str(v);
    assert(s =~= if v.build.len() > 0 {
        p + seq!['+'] + v.build
    } else {
        p
    });
    // No '+' stands before the build label.
    assert forall|j: int| 0 <= j < p.len() implies p[j] != '+' by {
        if j < core.len() {
            assert(p[j] == core[j]);
        } else if j == core.len() {
            assert(p[j] == '-');
        } else {
            assert(p[j] == v.pre[j - core.len() - 1]);
            assert(is_ident_char(v.pre[j - core.len() - 1]) || v.pre[j - core.len() - 1] == '.');
        }
    }
    let ip = find_idx(s, '+');
    if v.build.len() > 0 {
        assert(s[p.len() as int] == '+');
        assert(forall|j: int| 0 <= j < p.len() ==> s[j] == p[j]);
        lemma_find_idx_is(s, '+', p.len() as int);
        assert(ip == p.len());
        assert(s.subrange(0, ip) =~= p);
        assert(s.subrange(ip + 1, s.len() as int) =~= v.build);
    } else {
        lemma_find_idx_none(s, '+');
        assert(ip == -1);
    }
    let rest = if ip >= 0 {
        s.subrange(0, ip)
    } else {
        s
    };
    assert(rest =~= p);
    // The first '-' is the pre-release separator: the triple holds none.
    let id = find_idx(rest, '-');
    if v.pre.len() > 0 {
        assert(p[core.len() as int] == '-');
        assert forall|j: int| 0 <= j < core.len() implies p[j] != '-' by {
            assert(p[j] == core[j]);
        }
        lemma_find_idx_is(p, '-', core.len() as int);
        assert(id == core.len());
        assert(rest.subrange(0, id) =~= core);
        assert(rest.subrange(id + 1, rest.len() as int) =~= v.pre);
    } else {
        assert(p =~= core);
        assert(forall|j: int| 0 <= j < p.len() ==> p[j] != '-');
        lemma_find_idx_none(p, '-');
        assert(id == -1);
    }
    let core2 = if id >= 0 {
        rest.subrange(0, id)
    } else {
        rest
    };
    assert(core2 =~= core);
    // The triple splits into its three numerals.
    assert(forall|i: int| 0 <= i < a.len() ==> a[i] != '.');
    assert(forall|i: int| 0 <= i < b.len() ==> b[i] != '.');
    assert(forall|i: int| 0 <= i < c.len() ==> c[i] != '.');
    lemma_split_on_whole(a, '.');
    lemma_split_on_whole(b, '.');
    lemma_split_on_whole(c, '.');
    let tail = b + seq!['.'] + c;
    lemma_split_on_concat(b, c, '.');
    assert(split_on(tail, '.') == seq![b] + seq![c]);
    lemma_split_on_concat(a, tail, '.');
    assert(core =~= a + seq!['.'] + tail);
    assert(split_on(core, '.') == seq![a] + (seq![b] + seq![c]));
    let segs = split_on(core, '.');
    assert(segs =~= seq![a, b, c]);
    assert(segs.len() == 3);
    assert(segs[0] == a && segs[1] == b && segs[2] == c);
    let pre2 = if id >= 0 {
        rest.subrange(id + 1, rest.len() as int)
    } else {
        Seq::<char>::empty()
    };
    let build2 = if ip >= 0 {
        s.subrange(ip + 1, s.len() as int)
    } else {
        Seq::<char>::empty()
    };
    assert(pre2 =~= v.pre);
    assert(build2 =~= v.build);
    assert(parse_version(s) == Some(
        VersionView {
            major: dec_val(a),
            minor: dec_val(b),
            patch: dec_val(c),
            pre: pre2,
            build: build2,
        },
    ));
}

/// Strict lexicographic order on character sequences.
pub open spec fn lex_lt(p: Seq<char>, q: Seq<char>) -> bool
    decreases p.len() + q.len(),
{
    if q.len() == 0 {
        false
    } else if p.len() == 0 {
        true
    } else if p.first() != q.first() {
        (p.first() as nat) < (q.first() as nat)
    } else {
        lex_lt(p.drop_first(), q.drop_first())
    }
}

/// Zero is written with the digit `0` alone.
proof fn lemma_dec_val_zero(s: Seq<char>)
    requires
        all_digits(s),
        dec_val(s) == 0,
    ensures
        forall|i: int| 0 <= i < s.len() ==> s[i] == '0',
    decreases s.len(),
{
    if s.len() > 0 {
        assert(dec_val(s) == dec_val(s.drop_last()) * 10 + digit_val(s.last()));
        assert(digit_val(s.last()) == 0);
        assert(is_digit(s.last()));
        if s.last() != '0' {
            lemma_char_trichotomy(s.last(), '0');
        }
        assert(s.last() == '0');
        assert(all_digits(s.drop_last())) by {
            assert(forall|i: int|
                0 <= i < s.drop_last().len() ==> #[trigger] s.drop_last()[i] == s[i]);
        }
        lemma_dec_val_zero(s.drop_last());
        assert(forall|i: int|
            0 <= i < s.len() - 1 ==> #[trigger] s[i] == s.drop_last()[i]);
    }
}

/// A numeral that does not start with `0` is at least one.
proof fn lemma_dec_val_pos(s: Seq<char>)
    requires
        all_digits(s),
        s.len() > 0,
        s[0] != '0',
    ensures
        dec_val(s) >= 1,
{
    if dec_val(s) == 0 {
        lemma_dec_val_zero(s);
    }
}

/// A leading zero does not change the value.
proof fn lemma_dec_val_strip(s: Seq<char>)
    requires
        all_digits(s),
        s.len() > 0,
        s[0] == '0',
    ensures
        dec_val(s) == dec_val(s.skip(1)),
    decreases s.len(),
{
    if s.len() == 1 {
        assert(s.drop_last() =~= Seq::<char>::empty());
        assert(s.last() == s[0]);
        assert(dec_val(s) == dec_val(s.drop_last()) * 10 + digit_val(s.last()));
        assert(digit_val('0') == 0);
        assert(s.skip(1) =~= Seq::<char>::empty());
    } else {
        let dl = s.drop_last();
        assert(all_digits(dl)) by {
            assert(forall|i: int| 0 <= i < dl.len() ==> #[trigger] dl[i] == s[i]);
        }
        assert(dl[0] == s[0]);
        lemma_dec_val_strip(dl);
        assert(s.skip(1).drop_last() =~= dl.skip(1));
        assert(s.skip(1).last() == s.last());
        assert(dec_val(s.skip(1)) == dec_val(dl.skip(1)) * 10 + digit_val(s.last()));
        assert(dec_val(s) == dec_val(dl) * 10 + digit_val(s.last()));
    }
}

/// Leading zeros do not change the value.
proof fn lemma_dec_val_skip_zeros(s: Seq<char>, k: int)
    requires
        all_digits(s),
        0 <= k <= s.len(),
        forall|i: int| 0 <= i < k ==> s[i] == '0',
    ensures
        dec_val(s.skip(k)) == dec_val(s),
    decreases k,
{
    if k > 0 {
        lemma_dec_val_strip(s);
        let t = s.skip(1);
        assert(all_digits(t)) by {
            assert(forall|i: int| 0 <= i < t.len() ==> #[trigger] t[i] == s[i + 1]);
        }
        assert(forall|i: int| 0 <= i < k - 1 ==> #[trigger] t[i] == s[i + 1] && t[i] == '0');
        lemma_dec_val_skip_zeros(t, k - 1);
        assert(t.skip(k - 1) =~= s.skip(k));
    } else {
        assert(s.skip(0) =~= s);
    }
}

/// For equal lengths, the lexicographic order is decided by the fronts or,
/// when those agree, by the last characters.
proof fn lemma_lex_eqlen_last(p: Seq<char>, q: Seq<char>)
    requires
        p.len() == q.len(),
        p.len() > 0,
    ensures
        lex_lt(p, q) == (lex_lt(p.drop_last(), q.drop_last()) || (p.drop_last() == q.drop_last()
            && (p.last() as nat) < (q.last() as nat))),
    decreases p.len(),
{
    if p.len() == 1 {
        assert(p.drop_last() =~= Seq::<char>::empty());
        assert(q.drop_last() =~= Seq::<char>::empty());
        assert(p.first() == p.last() && q.first() == q.last());
        if p.first() == q.first() {
            assert(p.drop_first() =~= Seq::<char>::empty());
            assert(q.drop_first() =~= Seq::<char>::empty());
        }
    } else {
        if p.first() != q.first() {
            assert(p.drop_last()[0] == p[0] && q.drop_last()[0] == q[0]);
            assert(p.drop_last().first() != q.drop_last().first());
            assert(lex_lt(p.drop_last(), q.drop_last()) == ((p.first() as nat) < (
            q.first() as nat)));
            assert(p.drop_last() != q.drop_last());
        } else {
            let tp = p.drop_first();
            let tq = q.drop_first();
            lemma_lex_eqlen_last(tp, tq);
            assert(tp.drop_last() =~= p.drop_last().drop_first());
            assert(tq.drop_last() =~= q.drop_last().drop_first());
            assert(tp.last() == p.last() && tq.last() == q.last());
            assert(p.drop_last().first() == q.drop_last().first());
            assert(lex_lt(p.drop_last(), q.drop_last()) == lex_lt(tp.drop_last(), tq.drop_last()));
            assert((p.drop_last() == q.drop_last()) == (tp.drop_last() == tq.drop_last())) by {
                if tp.drop_last() == tq.drop_last() {
                    assert(p.drop_last() =~= q.drop_last()) by {
                        assert(forall|i: int|
                            1 <= i < p.drop_last().len() ==> #[trigger] p.drop_last()[i]
                                == tp.drop_last()[i - 1]);
                        assert(forall|i: int|
                            1 <= i < q.drop_last().len() ==> #[trigger] q.drop_last()[i]
                                == tq.drop_last()[i - 1]);
                    }
                }
                if p.drop_last() == q.drop_last() {
                    assert(tp.drop_last() =~= tq.drop_last()) by {
                        assert(forall|i: int|
                            0 <= i < tp.drop_last().len() ==> #[trigger] tp.drop_last()[i]
                                == p.drop_last()[i + 1]);
                        assert(forall|i: int|
                            0 <= i < tq.drop_last().len() ==> #[trigger] tq.drop_last()[i]
                                == q.drop_last()[i + 1]);
                    }
                }
            }
        }
    }
}

/// A shorter canonical numeral, or an equal-length lexicographically
/// earlier one, has the smaller value.
proof fn lemma_dec_lt(a: Seq<char>, b: Seq<char>)
    requires
        all_digits(a),
        all_digits(b),
        b.len() > 0,
        b[0] != '0',
        a.len() > 0 ==> a[0] != '0',
        a.len() < b.len() || (a.len() == b.len() && lex_lt(a, b)),
    ensures
        dec_val(a) < dec_val(b),
    decreases b.len(),
{
    if a.len() == 0 {
        lemma_dec_val_pos(b);
    } else {
        let da = a.drop_last();
        let db = b.drop_last();
        assert(all_digits(da) && all_digits(db)) by {
            assert(forall|i: int| 0 <= i < da.len() ==> #[trigger] da[i] == a[i]);
            assert(forall|i: int| 0 <= i < db.len() ==> #[trigger] db[i] == b[i]);
        }
        assert(dec_val(a) == dec_val(da) * 10 + digit_val(a.last()));
        assert(dec_val(b) == dec_val(db) * 10 + digit_val(b.last()));
        assert(digit_val(a.last()) <= 9) by {
            assert(is_digit(a.last()));
        }
        if a.len() < b.len() {
            assert(db.len() > 0 && db[0] == b[0]);
            if da.len() > 0 {
                assert(da[0] == a[0]);
            }
            lemma_dec_lt(da, db);
        } else {
            lemma_lex_eqlen_last(a, b);
            if lex_lt(da, db) {
                assert(da.len() > 0 && db.len() > 0);
                assert(da[0] == a[0] && db[0] == b[0]);
                lemma_dec_lt(da, db);
            } else {
                assert(da == db && (a.last() as nat) < (b.last() as nat));
                assert(digit_val(a.last()) < digit_val(b.last())) by {
                    assert(is_digit(a.last()) && is_digit(b.last()));
                }
            }
        }
    }
}

/// For canonical numerals the value order is exactly length order broken
/// by lexicographic order.
proof fn lemma_dec_lt_iff(a: Seq<char>, b: Seq<char>)
    requires
        all_digits(a),
        all_digits(b),
        a.len() > 0 ==> a[0] != '0',
        b.len() > 0 ==> b[0] != '0',
    ensures
        (dec_val(a) < dec_val(b)) == (a.len() < b.len() || (a.len() == b.len() && lex_lt(a, b))),
{
    if a.len() < b.len() || (a.len() == b.len() && lex_lt(a, b)) {
        lemma_dec_lt(a, b);
    } else {
        if b.len() < a.len() || (a.len() == b.len() && lex_lt(b, a)) {
            lemma_dec_lt(b, a);
        } else {
            lemma_lex_lt_trichotomy(a, b);
            assert(a == b);
        }
    }
}

/// One pre-release identifier before another: digits compare by value,
/// digits come before letters, and letters compare lexicographically.
pub open spec fn ident_lt(a: Seq<char>, b: Seq<char>) -> bool {
    if all_digits(a) && all_digits(b) {
        dec_val(a) < dec_val(b)
    } else if all_digits(a) {
        true
    } else if all_digits(b) {
        false
    } else {
        lex_lt(a, b)
    }
}

/// Two identifiers the order cannot tell apart.
pub open spec fn ident_equiv(a: Seq<char>, b: Seq<char>) -> bool {
    if all_digits(a) && all_digits(b) {
        dec_val(a) == dec_val(b)
    } else {
        a == b
    }
}

/// Identifier lists in order: element by element, a missing element first.
pub open spec fn ids_lt(xs: Seq<Seq<char>>, ys: Seq<Seq<char>>) -> bool
    decreases xs.len() + ys.len(),
{
    if ys.len() == 0 {
        false
    } else if xs.len() == 0 {
        true
    } else if ident_equiv(xs.first(), ys.first()) {
        ids_lt(xs.drop_first(), ys.drop_first())
    } else {
        ident_lt(xs.first(), ys.first())
    }
}

/// Identifier lists the order cannot tell apart.
pub open spec fn ids_equiv(xs: Seq<Seq<char>>, ys: Seq<Seq<char>>) -> bool
    decreases xs.len() + ys.len(),
{
    if xs.len() == 0 && ys.len() == 0 {
        true
    } else if xs.len() == 0 || ys.len() == 0 {
        false
    } else {
        ident_equiv(xs.first(), ys.first()) && ids_equiv(xs.drop_first(), ys.drop_first())
    }
}

/// Order on pre-release labels, as semantic versioning has it: a
/// pre-release comes before the release (empty label); labels compare by
/// dot-separated identifiers, numeric identifiers by value and below
/// alphanumeric ones, and a shorter identifier list first.
pub open spec fn pre_lt(p: Seq<char>, q: Seq<char>) -> bool {
    if p.len() == 0 {
        false
    } else if q.len() == 0 {
        true
    } else {
        ids_lt(split_on(p, '.'), split_on(q, '.'))
    }
}

/// Pre-release labels the order cannot tell apart.
pub open spec fn pre_equiv(p: Seq<char>, q: Seq<char>) -> bool {
    (p.len() == 0 && q.len() == 0) || (p.len() > 0 && q.len() > 0 && ids_equiv(
        split_on(p, '.'),
        split_on(q, '.'),
    ))
}

/// Strict version order: the numeric triple lexicographically, then the
/// pre-release label. Build labels do not order versions.
pub open spec fn version_lt(x: VersionView, y: VersionView) -> bool {
    if x.major != y.major {
        x.major < y.major
    } else if x.minor != y.minor {
        x.minor < y.minor
    } else if x.patch != y.patch {
        x.patch < y.patch
    } else {
        pre_lt(x.pre, y.pre)
    }
}

/// Equality up to build metadata is plain equality of the ordered parts.
pub open spec fn version_ord_eq(x: VersionView, y: VersionView) -> bool {
    x.major == y.major && x.minor == y.minor && x.patch == y.patch && x.pre == y.pre
}

/// Two distinct characters are ordered one way or the other.
pub proof fn lemma_char_trichotomy(a: char, b: char)
    requires
        a != b,
    ensures
        (a as nat) < (b as nat) || (b as nat) < (a as nat),
{
}

pub proof fn lemma_lex_lt_trichotomy(p: Seq<char>, q: Seq<char>)
    ensures
        lex_lt(p, q) || lex_lt(q, p) || p == q,
    decreases p.len() + q.len(),
{
    if p.len() == 0 && q.len() == 0 {
        assert(p =~= q);
    } else if q.len() == 0 {
        assert(lex_lt(q, p));
    } else if p.len() == 0 {
        assert(lex_lt(p, q));
    } else if p.first() != q.first() {
        lemma_char_trichotomy(p.first(), q.first());
        assert(lex_lt(p, q) || lex_lt(q, p));
    } else {
        lemma_lex_lt_trichotomy(p.drop_first(), q.drop_first());
        if p.drop_first() == q.drop_first() {
            assert(p.drop_first().len() == p.len() - 1);
            assert(q.drop_first().len() == q.len() - 1);
            assert(p.len() == q.len());
            assert forall|i: int| 0 <= i < p.len() implies p[i] == q[i] by {
                if i == 0 {
                    assert(p[0] == p.first());
                    assert(q[0] == q.first());
                } else {
                    assert(p[i] == p.drop_first()[i - 1]);
                    assert(q[i] == q.drop_first()[i - 1]);
                }
            }
            assert(p =~= q);
        }
    }
}

pub proof fn lemma_lex_lt_asymmetric(p: Seq<char>, q: Seq<char>)
    ensures
        !(lex_lt(p, q) && lex_lt(q, p)),
    decreases p.len() + q.len(),
{
    if p.len() > 0 && q.len() > 0 && p.first() == q.first() {
        lemma_lex_lt_asymmetric(p.drop_first(), q.drop_first());
    }
}

pub proof fn lemma_lex_lt_transitive(p: Seq<char>, q: Seq<char>, r: Seq<char>)
    requires
        lex_lt(p, q),
        lex_lt(q, r),
    ensures
        lex_lt(p, r),
    decreases p.len() + q.len() + r.len(),
{
    if p.len() > 0 && q.len() > 0 && r.len() > 0 {
        if p.first() == q.first() && q.first() == r.first() {
            lemma_lex_lt_transitive(p.drop_first(), q.drop_first(), r.drop_first());
        }
    }
}

/// An identifier is not ordered both ways.
proof fn lemma_ident_lt_asymmetric(a: Seq<char>, b: Seq<char>)
    ensures
        !(ident_lt(a, b) && ident_lt(b, a)),
{
    if !all_digits(a) && !all_digits(b) {
        lemma_lex_lt_asymmetric(a, b);
    }
}

/// An equivalent identifier orders the same way against any third.
proof fn lemma_ident_equiv_transport(a: Seq<char>, b: Seq<char>, c: Seq<char>)
    requires
        ident_equiv(a, b),
    ensures
        ident_lt(a, c) == ident_lt(b, c),
        ident_lt(c, a) == ident_lt(c, b),
        ident_equiv(a, c) == ident_equiv(b, c),
{
    if !(all_digits(a) && all_digits(b)) {
        assert(a == b);
    }
}

/// The identifier order is transitive.
proof fn lemma_ident_lt_transitive(a: Seq<char>, b: Seq<char>, c: Seq<char>)
    requires
        ident_lt(a, b),
        ident_lt(b, c),
    ensures
        ident_lt(a, c),
{
    if !all_digits(a) && !all_digits(b) && !all_digits(c) {
        lemma_lex_lt_transitive(a, b, c);
    }
}

/// Two identifiers are ordered one way or the other, or equivalent.
proof fn lemma_ident_trichotomy(a: Seq<char>, b: Seq<char>)
    ensures
        ident_lt(a, b) || ident_lt(b, a) || ident_equiv(a, b),
{
    if !all_digits(a) && !all_digits(b) {
        lemma_lex_lt_trichotomy(a, b);
        if a == b {
            assert(ident_equiv(a, b));
        }
    }
}

/// Identifier lists are not ordered both ways.
proof fn lemma_ids_lt_asymmetric(xs: Seq<Seq<char>>, ys: Seq<Seq<char>>)
    ensures
        !(ids_lt(xs, ys) && ids_lt(ys, xs)),
    decreases xs.len() + ys.len(),
{
    if xs.len() > 0 && ys.len() > 0 {
        if ident_equiv(xs.first(), ys.first()) {
            assert(ident_equiv(ys.first(), xs.first()));
            lemma_ids_lt_asymmetric(xs.drop_first(), ys.drop_first());
        } else {
            assert(!ident_equiv(ys.first(), xs.first())) by {
                if ident_equiv(ys.first(), xs.first()) {
                    assert(ident_equiv(xs.first(), ys.first()));
                }
            }
            lemma_ident_lt_asymmetric(xs.first(), ys.first());
        }
    }
}

/// The identifier-list order is transitive.
proof fn lemma_ids_lt_transitive(xs: Seq<Seq<char>>, ys: Seq<Seq<char>>, zs: Seq<Seq<char>>)
    requires
        ids_lt(xs, ys),
        ids_lt(ys, zs),
    ensures
        ids_lt(xs, zs),
    decreases xs.len() + ys.len() + zs.len(),
{
    assert(ys.len() > 0 && zs.len() > 0);
    if xs.len() > 0 {
        let x1 = xs.first();
        let y1 = ys.first();
        let z1 = zs.first();
        if ident_equiv(x1, y1) && ident_equiv(y1, z1) {
            lemma_ident_equiv_transport(x1, y1, z1);
            assert(ident_equiv(x1, z1));
            lemma_ids_lt_transitive(xs.drop_first(), ys.drop_first(), zs.drop_first());
        } else if ident_equiv(x1, y1) {
            lemma_ident_equiv_transport(x1, y1, z1);
            assert(ident_lt(x1, z1) == ident_lt(y1, z1));
            assert(!ident_equiv(x1, z1));
        } else if ident_equiv(y1, z1) {
            lemma_ident_equiv_transport(y1, z1, x1);
            assert(ident_lt(x1, z1) == ident_lt(x1, y1));
            assert(!ident_equiv(x1, z1)) by {
                if ident_equiv(x1, z1) {
                    assert(ident_equiv(z1, x1));
                    lemma_ident_equiv_transport(y1, z1, x1);
                    assert(ident_equiv(y1, x1));
                    assert(ident_equiv(x1, y1));
                }
            }
        } else {
            lemma_ident_lt_transitive(x1, y1, z1);
            assert(!ident_equiv(x1, z1)) by {
                if ident_equiv(x1, z1) {
                    lemma_ident_equiv_transport(x1, z1, y1);
                    assert(ident_lt(z1, y1) == ident_lt(x1, y1));
                    lemma_ident_lt_asymmetric(y1, z1);
                }
            }
        }
    }
}

/// Two identifier lists are ordered one way or the other, or equivalent.
proof fn lemma_ids_trichotomy(xs: Seq<Seq<char>>, ys: Seq<Seq<char>>)
    ensures
        ids_lt(xs, ys) || ids_lt(ys, xs) || ids_equiv(xs, ys),
    decreases xs.len() + ys.len(),
{
    if xs.len() > 0 && ys.len() > 0 {
        lemma_ident_trichotomy(xs.first(), ys.first());
        if ident_equiv(xs.first(), ys.first()) {
            assert(ident_equiv(ys.first(), xs.first()));
            lemma_ids_trichotomy(xs.drop_first(), ys.drop_first());
        } else {
            assert(!ident_equiv(ys.first(), xs.first())) by {
                if ident_equiv(ys.first(), xs.first()) {
                    assert(ident_equiv(xs.first(), ys.first()));
                }
            }
        }
    }
}

/// The version order sorts any two versions one way or the other, or they
/// agree on every ordered part up to identifier equivalence.
pub proof fn lemma_version_lt_trichotomy(x: VersionView, y: VersionView)
    ensures
        version_lt(x, y) || version_lt(y, x) || (x.major == y.major && x.minor == y.minor
            && x.patch == y.patch && pre_equiv(x.pre, y.pre)),
{
    if x.pre.len() > 0 && y.pre.len() > 0 {
        lemma_ids_trichotomy(split_on(x.pre, '.'), split_on(y.pre, '.'));
    }
}

pub proof fn lemma_version_lt_asymmetric(x: VersionView, y: VersionView)
    ensures
        !(version_lt(x, y) && version_lt(y, x)),
{
    if x.pre.len() > 0 && y.pre.len() > 0 {
        lemma_ids_lt_asymmetric(split_on(x.pre, '.'), split_on(y.pre, '.'));
    }
}

/// The version order is transitive.
pub proof fn lemma_version_lt_transitive(x: VersionView, y: VersionView, z: VersionView)
    requires
        version_lt(x, y),
        version_lt(y, z),
    ensures
        version_lt(x, z),
{
    if x.major == y.major && y.major == z.major && x.minor == y.minor && y.minor == z.minor
        && x.patch == y.patch && y.patch == z.patch {
        if x.pre.len() > 0 && y.pre.len() > 0 && z.pre.len() > 0 {
            lemma_ids_lt_transitive(
                split_on(x.pre, '.'),
                split_on(y.pre, '.'),
                split_on(z.pre, '.'),
            );
        }
    }
}

/// Whether `p` comes lexicographically before `q`.
pub fn lex_lt_str(p: &str, q: &str) -> (r: bool)
    ensures
        r == lex_lt(p@, q@),
{
    let pn = p.unicode_len();
    let qn = q.unicode_len();
    let mut i: usize = 0;
    proof {
        assert(p@.skip(0) =~= p@);
        assert(q@.skip(0) =~= q@);
    }
    loop
        invariant_except_break
            0 <= i <= pn,
            0 <= i <= qn,
            pn == p@.len(),
            qn == q@.len(),
            lex_lt(p@, q@) == lex_lt(p@.skip(i as int), q@.skip(i as int)),
        ensures
            lex_lt(p@, q@) == lex_lt(p@.skip(i as int), q@.skip(i as int)),
            i <= pn && i <= qn,
            pn == p@.len(),
            qn == q@.len(),
            i < pn && i < qn ==> p@[i as int] != q@[i as int],
        decreases pn - i,
    {
        if i >= qn || i >= pn {
            break ;
        }
        let pc = p.get_char(i);
        let qc = q.get_char(i);
        if pc != qc {
            break ;
        }
        proof {
            let ps = p@.skip(i as int);
            let qs = q@.skip(i as int);
            assert(ps.first() == p@[i as int]);
            assert(qs.first() == q@[i as int]);
            assert(ps.drop_first() =~= p@.skip(i + 1));
            assert(qs.drop_first() =~= q@.skip(i + 1));
        }
        i = i + 1;
    }
    proof {
        let ps = p@.skip(i as int);
        let qs = q@.skip(i as int);
        if i < pn && i < qn {
            assert(ps.first() == p@[i as int]);
            assert(qs.first() == q@[i as int]);
        }
    }
    if i >= qn {
        false
    } else if i >= pn {
        true
    } else {
        let pc = p.get_char(i);
        let qc = q.get_char(i);
        pc < qc
    }
}

/// The position of the first character that is not `0`.
fn first_nonzero(s: &str) -> (k: usize)
    ensures
        0 <= k <= s@.len(),
        forall|i: int| 0 <= i < k ==> s@[i] == '0',
        k < s@.len() ==> s@[k as int] != '0',
{
    let n = s.unicode_len();
    let mut k: usize = 0;
    while k < n
        invariant
            0 <= k <= n,
            n == s@.len(),
            forall|i: int| 0 <= i < k ==> s@[i] == '0',
        decreases n - k,
    {
        if s.get_char(k) != '0' {
            return k;
        }
        k = k + 1;
    }
    k
}

/// Numeric order of two digit strings.
fn dec_lt_str(a: &str, b: &str) -> (r: bool)
    requires
        all_digits(a@),
        all_digits(b@),
    ensures
        r == (dec_val(a@) < dec_val(b@)),
{
    let an = a.unicode_len();
    let bn = b.unicode_len();
    let ka = first_nonzero(a);
    let kb = first_nonzero(b);
    let a1 = a.substring_char(ka, an);
    let b1 = b.substring_char(kb, bn);
    proof {
        assert(a1@ =~= a@.skip(ka as int));
        assert(b1@ =~= b@.skip(kb as int));
        lemma_dec_val_skip_zeros(a@, ka as int);
        lemma_dec_val_skip_zeros(b@, kb as int);
        assert(all_digits(a1@)) by {
            assert(forall|i: int| 0 <= i < a1@.len() ==> #[trigger] a1@[i] == a@[i + ka]);
        }
        assert(all_digits(b1@)) by {
            assert(forall|i: int| 0 <= i < b1@.len() ==> #[trigger] b1@[i] == b@[i + kb]);
        }
        if a1@.len() > 0 {
            assert(a1@[0] == a@[ka as int]);
        }
        if b1@.len() > 0 {
            assert(b1@[0] == b@[kb as int]);
        }
        lemma_dec_lt_iff(a1@, b1@);
    }
    let a1n = a1.unicode_len();
    let b1n = b1.unicode_len();
    if a1n < b1n {
        true
    } else if a1n > b1n {
        proof {
            lemma_dec_lt_iff(b1@, a1@);
            if dec_val(a1@) < dec_val(b1@) {
            }
        }
        false
    } else {
        lex_lt_str(a1, b1)
    }
}

/// The identifier order, executable.
fn ident_lt_str(a: &str, b: &str) -> (r: bool)
    ensures
        r == ident_lt(a@, b@),
{
    let (_ai, ad) = scan_segment(a);
    let (_bi, bd) = scan_segment(b);
    if ad && bd {
        dec_lt_str(a, b)
    } else if ad {
        true
    } else if bd {
        false
    } else {
        lex_lt_str(a, b)
    }
}

/// Identifier equivalence, executable.
fn ident_equiv_str(a: &str, b: &str) -> (r: bool)
    ensures
        r == ident_equiv(a@, b@),
{
    let (_ai, ad) = scan_segment(a);
    let (_bi, bd) = scan_segment(b);
    if ad && bd {
        !dec_lt_str(a, b) && !dec_lt_str(b, a)
    } else {
        crate::text::str_eq(a, b)
    }
}

/// Whether the label `p` comes before `q`, identifier by identifier.
pub fn pre_label_lt(p: &str, q: &str) -> (r: bool)
    ensures
        r == ids_lt(split_on(p@, '.'), split_on(q@, '.')),
{
    let xs = split_string(p, '.');
    let ys = split_string(q, '.');
    let ghost xv = split_on(p@, '.');
    let ghost yv = split_on(q@, '.');
    proof {
        assert(xs@.map_values(|t: String| t@) == xv);
        assert(ys@.map_values(|t: String| t@) == yv);
        assert(xv.skip(0) =~= xv);
        assert(yv.skip(0) =~= yv);
    }
    let xn = xs.len();
    let yn = ys.len();
    let mut k: usize = 0;
    while k < xn || k < yn
        invariant
            0 <= k <= xn,
            0 <= k <= yn,
            xn == xv.len(),
            yn == yv.len(),
            xv == split_on(p@, '.'),
            yv == split_on(q@, '.'),
            xs@.map_values(|t: String| t@) == xv,
            ys@.map_values(|t: String| t@) == yv,
            ids_lt(xv, yv) == ids_lt(xv.skip(k as int), yv.skip(k as int)),
        decreases xn + yn - k,
    {
        proof {
            if k < xn {
                assert(xv[k as int] == xs@.map_values(|t: String| t@)[k as int]);
            }
            if k < yn {
                assert(yv[k as int] == ys@.map_values(|t: String| t@)[k as int]);
            }
        }
        if k >= yn {
            proof {
                assert(yv.skip(k as int) =~= Seq::<Seq<char>>::empty());
            }
            return false;
        }
        if k >= xn {
            proof {
                assert(xv.skip(k as int) =~= Seq::<Seq<char>>::empty());
                assert(yv.skip(k as int).len() > 0);
            }
            return true;
        }
        proof {
            assert(xv.skip(k as int).first() == xv[k as int]);
            assert(yv.skip(k as int).first() == yv[k as int]);
        }
        if ident_equiv_str(xs[k].as_str(), ys[k].as_str()) {
            proof {
                assert(xv.skip(k as int).drop_first() =~= xv.skip(k + 1));
                assert(yv.skip(k as int).drop_first() =~= yv.skip(k + 1));
            }
            k = k + 1;
        } else {
            let r = ident_lt_str(xs[k].as_str(), ys[k].as_str());
            proof {
                assert(ids_lt(xv.skip(k as int), yv.skip(k as int)) == ident_lt(
                    xv[k as int],
                    yv[k as int],
                ));
            }
            return r;
        }
    }
    proof {
        assert(yv.skip(k as int) =~= Seq::<Seq<char>>::empty());
    }
    false
}

impl Version {
    /// Whether this version comes before `other` in version order.
    pub fn lt(&self, other: &Version) -> (r: bool)
        ensures
            r == version_lt(self@, other@),
    {
        if self.major != other.major {
            self.major < other.major
        } else if self.minor != other.minor {
            self.minor < other.minor
        } else if self.patch != other.patch {
            self.patch < other.patch
        } else {
            let pn = self.pre.as_str().unicode_len();
            let qn = other.pre.as_str().unicode_len();
            if pn == 0 {
                false
            } else if qn == 0 {
                true
            } else {
                pre_label_lt(self.pre.as_str(), other.pre.as_str())
            }
        }
    }

    /// Whether the two versions agree on every ordered part.
    pub fn ord_eq(&self, other: &Version) -> (r: bool)
        ensures
            r == version_ord_eq(self@, other@),
    {
        self.major == other.major && self.minor == other.minor && self.patch == other.patch
            && crate::text::str_eq(self.pre.as_str(), other.pre.as_str())
    }

    /// Whether the two versions are the same, build label included.
    pub fn same(&self, other: &Version) -> (r: bool)
        ensures
            r == (self@ == other@),
    {
        let r = self.major == other.major && self.minor == other.minor && self.patch == other.patch
            && crate::text::str_eq(self.pre.as_str(), other.pre.as_str()) && crate::text::str_eq(
            self.build.as_str(),
            other.build.as_str(),
        );
        proof {
            if r {
                assert(self@ == other@);
            }
        }
        r
    }

    /// A field-by-field copy.
    pub fn duplicate(&self) -> (r: Version)
        ensures
            r@ == self@,
    {
        Version {
            major: self.major,
            minor: self.minor,
            patch: self.patch,
            pre: str_to_string(self.pre.as_str()),
            build: str_to_string(self.build.as_str()),
        }
    }
}

} // verus!

//! Version requirements: comma-separated comparators over versions, with
//! caret, tilde, wildcard, and relational operators.

use crate::text::dec_val;
use crate::text::find_idx;
use crate::text::is_canonical_numeral;
use crate::text::lemma_find_idx_is;
use crate::text::lemma_find_idx_none;
use crate::text::parse_u64;
use crate::text::split_on;
use crate::text::split_string;
use crate::text::str_to_string;
use crate::text::trim;
use crate::text::trim_of;
use crate::version::valid_build;
use crate::version::valid_pre;
use crate::version::Version;
use crate::version::VersionView;
use vstd::prelude::*;

verus! {

/// A comparator operator.
#[derive(Clone, Copy, Debug, PartialEq, Eq, Structural)]
pub enum ReqOp {
    Exact,
    Greater,
    GreaterEq,
    Less,
    LessEq,
    Tilde,
    Caret,
    Wildcard,
}

/// The mathematical value of one comparator.
pub struct ComparatorView {
    pub op: ReqOp,
    pub major: nat,
    pub minor: Option<nat>,
    pub patch: Option<nat>,
    pub pre: Seq<char>,
}

/// One comparator: an operator over a possibly partial version.
#[derive(Clone, Debug, PartialEq, Eq)]
pub struct Comparator {
    pub op: ReqOp,
    pub major: u64,
    pub minor: Option<u64>,
    pub patch: Option<u64>,
    pub pre: String,
}

impl View for Comparator {
    type V = ComparatorView;

    open spec fn view(&self) -> ComparatorView {
        ComparatorView {
            op: self.op,
            major: self.major as nat,
            minor: match self.minor {
                Some(m) => Some(m as nat),
                None => None,
            },
            patch: match self.patch {
                Some(p) => Some(p as nat),
                None => None,
            },
            pre: self.pre@,
        }
    }
}

/// `p` after `q` in the pre-release order, where the empty label is last.
pub open spec fn pre_gt(p: Seq<char>, q: Seq<char>) -> bool {
    crate::version::pre_lt(q, p)
}

/// `p` at or after `q` in the pre-release order.
pub open spec fn pre_ge(p: Seq<char>, q: Seq<char>) -> bool {
    !crate::version::pre_lt(p, q)
}

/// An exact or wildcard match: every stated part agrees.
pub open spec fn matches_exact(c: ComparatorView, v: VersionView) -> bool {
    &&& v.major == c.major
    &&& (c.minor matches Some(m) ==> v.minor == m)
    &&& (c.patch matches Some(p) ==> v.patch == p)
    &&& v.pre == c.pre
}

pub open spec fn matches_greater(c: ComparatorView, v: VersionView) -> bool {
    if v.major != c.major {
        v.major > c.major
    } else {
        match c.minor {
            None => false,
            Some(m) => if v.minor != m {
                v.minor > m
            } else {
                match c.patch {
                    None => false,
                    Some(p) => if v.patch != p {
                        v.patch > p
                    } else {
                        pre_gt(v.pre, c.pre)
                    },
                }
            },
        }
    }
}

pub open spec fn matches_less(c: ComparatorView, v: VersionView) -> bool {
    if v.major != c.major {
        v.major < c.major
    } else {
        match c.minor {
            None => false,
            Some(m) => if v.minor != m {
                v.minor < m
            } else {
                match c.patch {
                    None => false,
                    Some(p) => if v.patch != p {
                        v.patch < p
                    } else {
                        crate::version::pre_lt(v.pre, c.pre)
                    },
                }
            },
        }
    }
}

/// Tilde: the stated major and minor fixed, patch may grow.
pub open spec fn matches_tilde(c: ComparatorView, v: VersionView) -> bool {
    if v.major != c.major {
        false
    } else {
        match c.minor {
            None => true,
            Some(m) => if v.minor != m {
                false
            } else {
                match c.patch {
                    None => true,
                    Some(p) => if v.patch != p {
                        v.patch > p
                    } else {
                        pre_ge(v.pre, c.pre)
                    },
                }
            },
        }
    }
}

/// Caret: compatible growth, where the leftmost nonzero part is fixed.
pub open spec fn matches_caret(c: ComparatorView, v: VersionView) -> bool {
    if v.major != c.major {
        false
    } else {
        match c.minor {
            None => true,
            Some(m) => match c.patch {
                None => if c.major > 0 {
                    v.minor >= m
                } else {
                    v.minor == m
                },
                Some(p) => if c.major > 0 {
                    if v.minor != m {
                        v.minor > m
                    } else if v.patch != p {
                        v.patch > p
                    } else {
                        pre_ge(v.pre, c.pre)
                    }
                } else if m > 0 {
                    if v.minor != m {
                        false
                    } else if v.patch != p {
                        v.patch > p
                    } else {
                        pre_ge(v.pre, c.pre)
                    }
                } else {
                    v.minor == 0 && v.patch == p && pre_ge(v.pre, c.pre)
                },
            },
        }
    }
}

pub open spec fn cmp_matches(c: ComparatorView, v: VersionView) -> bool {
    match c.op {
        ReqOp::Exact => matches_exact(c, v),
        ReqOp::Wildcard => matches_exact(c, v),
        ReqOp::Greater => matches_greater(c, v),
        ReqOp::GreaterEq => matches_greater(c, v) || matches_exact(c, v),
        ReqOp::Less => matches_less(c, v),
        ReqOp::LessEq => matches_less(c, v) || matches_exact(c, v),
        ReqOp::Tilde => matches_tilde(c, v),
        ReqOp::Caret => matches_caret(c, v),
    }
}

/// A comparator that lets a pre-release through: it names that exact triple
/// and carries a pre-release label itself.
pub open spec fn pre_compatible(c: ComparatorView, v: VersionView) -> bool {
    c.major == v.major && c.minor == Some(v.minor) && c.patch == Some(v.patch) && c.pre.len() > 0
}

/// A requirement matches when every comparator does, and a pre-release
/// version only when some comparator names its triple with a pre-release.
pub open spec fn req_matches(req: Seq<ComparatorView>, v: VersionView) -> bool {
    &&& forall|k: int| 0 <= k < req.len() ==> cmp_matches(#[trigger] req[k], v)
    &&& (v.pre.len() > 0 ==> exists|k: int|
        0 <= k < req.len() && pre_compatible(#[trigger] req[k], v))
}

impl Comparator {
    /// A field-by-field copy.
    pub fn duplicate(&self) -> (r: Comparator)
        ensures
            r@ == self@,
    {
        Comparator {
            op: self.op,
            major: self.major,
            minor: self.minor,
            patch: self.patch,
            pre: str_to_string(self.pre.as_str()),
        }
    }

    /// Whether the version satisfies this comparator.
    pub fn matches(&self, v: &Version) -> (r: bool)
        ensures
            r == cmp_matches(self@, v@),
    {
        let exact = self.matches_exact_exec(v);
        match self.op {
            ReqOp::Exact => exact,
            ReqOp::Wildcard => exact,
            ReqOp::Greater => self.matches_greater_exec(v),
            ReqOp::GreaterEq => self.matches_greater_exec(v) || exact,
            ReqOp::Less => self.matches_less_exec(v),
            ReqOp::LessEq => self.matches_less_exec(v) || exact,
            ReqOp::Tilde => self.matches_tilde_exec(v),
            ReqOp::Caret => self.matches_caret_exec(v),
        }
    }

    fn pre_len(&self) -> (r: usize)
        ensures
            r == self.pre@.len(),
    {
        self.pre.as_str().unicode_len()
    }

    fn pre_gt_exec(&self, v: &Version) -> (r: bool)
        ensures
            r == pre_gt(v.pre@, self.pre@),
    {
        let vn = v.pre.as_str().unicode_len();
        let cn = self.pre_len();
        if cn == 0 {
            false
        } else if vn == 0 {
            true
        } else {
            crate::version::pre_label_lt(self.pre.as_str(), v.pre.as_str())
        }
    }

    fn pre_ge_exec(&self, v: &Version) -> (r: bool)
        ensures
            r == pre_ge(v.pre@, self.pre@),
    {
        let vn = v.pre.as_str().unicode_len();
        let cn = self.pre_len();
        if vn == 0 {
            true
        } else if cn == 0 {
            false
        } else {
            !crate::version::pre_label_lt(v.pre.as_str(), self.pre.as_str())
        }
    }

    fn matches_exact_exec(&self, v: &Version) -> (r: bool)
        ensures
            r == matches_exact(self@, v@),
    {
        if v.major != self.major {
            return false;
        }
        if let Some(m) = self.minor {
            if v.minor != m {
                return false;
            }
        }
        if let Some(p) = self.patch {
            if v.patch != p {
                return false;
            }
        }
        let r = crate::text::str_eq(v.pre.as_str(), self.pre.as_str());
        proof {
            if v.pre@ == self.pre@ {
                assert(matches_exact(self@, v@));
            }
        }
        r
    }

    fn matches_greater_exec(&self, v: &Version) -> (r: bool)
        ensures
            r == matches_greater(self@, v@),
    {
        if v.major != self.major {
            return v.major > self.major;
        }
        match self.minor {
            None => false,
            Some(m) => {
                if v.minor != m {
                    return v.minor > m;
                }
                match self.patch {
                    None => false,
                    Some(p) => {
                        if v.patch != p {
                            return v.patch > p;
                        }
                        self.pre_gt_exec(v)
                    },
                }
            },
        }
    }

    fn matches_less_exec(&self, v: &Version) -> (r: bool)
        ensures
            r == matches_less(self@, v@),
    {
        if v.major != self.major {
            return v.major < self.major;
        }
        match self.minor {
            None => false,
            Some(m) => {
                if v.minor != m {
                    return v.minor < m;
                }
                match self.patch {
                    None => false,
                    Some(p) => {
                        if v.patch != p {
                            return v.patch < p;
                        }
                        let vn = v.pre.as_str().unicode_len();
                        let cn = self.pre_len();
                        if vn == 0 {
                            false
                        } else if cn == 0 {
                            true
                        } else {
                            crate::version::pre_label_lt(v.pre.as_str(), self.pre.as_str())
                        }
                    },
                }
            },
        }
    }

    fn matches_tilde_exec(&self, v: &Version) -> (r: bool)
        ensures
            r == matches_tilde(self@, v@),
    {
        if v.major != self.major {
            return false;
        }
        match self.minor {
            None => true,
            Some(m) => {
                if v.minor != m {
                    return false;
                }
                match self.patch {
                    None => true,
                    Some(p) => {
                        if v.patch != p {
                            return v.patch > p;
                        }
                        self.pre_ge_exec(v)
                    },
                }
            },
        }
    }

    fn matches_caret_exec(&self, v: &Version) -> (r: bool)
        ensures
            r == matches_caret(self@, v@),
    {
        if v.major != self.major {
            return false;
        }
        match self.minor {
            None => true,
            Some(m) => {
                match self.patch {
                    None => {
                        if self.major > 0 {
                            v.minor >= m
                        } else {
                            v.minor == m
                        }
                    },
                    Some(p) => {
                        if self.major > 0 {
                            if v.minor != m {
                                v.minor > m
                            } else if v.patch != p {
                                v.patch > p
                            } else {
                                self.pre_ge_exec(v)
                            }
                        } else if m > 0 {
                            if v.minor != m {
                                false
                            } else if v.patch != p {
                                v.patch > p
                            } else {
                                self.pre_ge_exec(v)
                            }
                        } else {
                            v.minor == 0 && v.patch == p && self.pre_ge_exec(v)
                        }
                    },
                }
            },
        }
    }
}

/// The operator prefix of a comparator, and how many characters it takes.
/// A bare version takes the caret reading.
pub open spec fn parse_op(s: Seq<char>) -> (ReqOp, int) {
    if s.len() >= 2 && s[0] == '>' && s[1] == '=' {
        (ReqOp::GreaterEq, 2)
    } else if s.len() >= 2 && s[0] == '<' && s[1] == '=' {
        (ReqOp::LessEq, 2)
    } else if s.len() >= 1 && s[0] == '>' {
        (ReqOp::Greater, 1)
    } else if s.len() >= 1 && s[0] == '<' {
        (ReqOp::Less, 1)
    } else if s.len() >= 1 && s[0] == '=' {
        (ReqOp::Exact, 1)
    } else if s.len() >= 1 && s[0] == '~' {
        (ReqOp::Tilde, 1)
    } else if s.len() >= 1 && s[0] == '^' {
        (ReqOp::Caret, 1)
    } else {
        (ReqOp::Caret, 0)
    }
}

pub open spec fn is_wild_seg(t: Seq<char>) -> bool {
    t == seq!['*'] || t == seq!['x'] || t == seq!['X']
}

pub open spec fn good_numeral(t: Seq<char>) -> bool {
    is_canonical_numeral(t) && dec_val(t) <= u64::MAX
}

/// Reads one comparator: an optional operator, blanks, then a full or
/// partial version, a trailing `*`, `x` or `X` standing for any value.
pub open spec fn parse_comparator(s0: Seq<char>) -> Option<ComparatorView> {
    let op0 = parse_op(s0).0;
    let k = parse_op(s0).1;
    let s = trim_of(s0.skip(k));
    let ip = find_idx(s, '+');
    let rest = if ip >= 0 {
        s.subrange(0, ip)
    } else {
        s
    };
    let build = if ip >= 0 {
        s.subrange(ip + 1, s.len() as int)
    } else {
        Seq::<char>::empty()
    };
    let id = find_idx(rest, '-');
    let core = if id >= 0 {
        rest.subrange(0, id)
    } else {
        rest
    };
    let pre = if id >= 0 {
        rest.subrange(id + 1, rest.len() as int)
    } else {
        Seq::<char>::empty()
    };
    let segs = split_on(core, '.');
    if !(1 <= segs.len() <= 3) {
        None
    } else if !good_numeral(segs[0]) {
        None
    } else {
        let wild = (segs.len() >= 2 && is_wild_seg(segs[1])) || (segs.len() == 3 && is_wild_seg(
            segs[2],
        ));
        if wild {
            if (op0 == ReqOp::Exact || k == 0) && id < 0 && ip < 0 && ((segs.len() == 2
                && is_wild_seg(segs[1])) || (segs.len() == 3 && is_wild_seg(segs[1]) && is_wild_seg(
                segs[2],
            )) || (segs.len() == 3 && good_numeral(segs[1]) && is_wild_seg(segs[2]))) {
                if segs.len() == 3 && !is_wild_seg(segs[1]) {
                    Some(
                        ComparatorView {
                            op: ReqOp::Wildcard,
                            major: dec_val(segs[0]),
                            minor: Some(dec_val(segs[1])),
                            patch: None,
                            pre: Seq::<char>::empty(),
                        },
                    )
                } else {
                    Some(
                        ComparatorView {
                            op: ReqOp::Wildcard,
                            major: dec_val(segs[0]),
                            minor: None,
                            patch: None,
                            pre: Seq::<char>::empty(),
                        },
                    )
                }
            } else {
                None
            }
        } else if segs.len() >= 2 && !good_numeral(segs[1]) {
            None
        } else if segs.len() == 3 && !good_numeral(segs[2]) {
            None
        } else if (id >= 0 || ip >= 0) && segs.len() != 3 {
            None
        } else if id >= 0 && !(pre.len() > 0 && valid_pre(pre)) {
            None
        } else if ip >= 0 && !(build.len() > 0 && valid_build(build)) {
            None
        } else {
            Some(
                ComparatorView {
                    op: op0,
                    major: dec_val(segs[0]),
                    minor: if segs.len() >= 2 {
                        Some(dec_val(segs[1]))
                    } else {
                        None
                    },
                    patch: if segs.len() == 3 {
                        Some(dec_val(segs[2]))
                    } else {
                        None
                    },
                    pre,
                },
            )
        }
    }
}

/// Reads a comma-separated list of comparators, each trimmed.
pub open spec fn parse_comparators(parts: Seq<Seq<char>>) -> Option<Seq<ComparatorView>>
    decreases parts.len(),
{
    if parts.len() == 0 {
        Some(Seq::<ComparatorView>::empty())
    } else {
        match parse_comparators(parts.drop_last()) {
            None => None,
            Some(acc) => match parse_comparator(trim_of(parts.last())) {
                None => None,
                Some(c) => Some(acc.push(c)),
            },
        }
    }
}

/// Reads a requirement: `*` alone, or comma-separated comparators.
pub open spec fn parse_req(s: Seq<char>) -> Option<Seq<ComparatorView>> {
    let t = trim_of(s);
    if t.len() == 0 {
        None
    } else if t == seq!['*'] {
        Some(Seq::<ComparatorView>::empty())
    } else {
        parse_comparators(split_on(s, ','))
    }
}

/// Reads one comparator from text.
fn parse_comparator_str(s0: &str) -> (r: Option<Comparator>)
    ensures
        match r {
            Some(c) => parse_comparator(s0@) == Some(c@),
            None => parse_comparator(s0@) is None,
        },
{
    let n0 = s0.unicode_len();
    let c0 = if n0 >= 1 {
        s0.get_char(0)
    } else {
        ' '
    };
    let c1 = if n0 >= 2 {
        s0.get_char(1)
    } else {
        ' '
    };
    let op: ReqOp;
    let k: usize;
    if n0 >= 2 && c0 == '>' && c1 == '=' {
        op = ReqOp::GreaterEq;
        k = 2;
    } else if n0 >= 2 && c0 == '<' && c1 == '=' {
        op = ReqOp::LessEq;
        k = 2;
    } else if n0 >= 1 && c0 == '>' {
        op = ReqOp::Greater;
        k = 1;
    } else if n0 >= 1 && c0 == '<' {
        op = ReqOp::Less;
        k = 1;
    } else if n0 >= 1 && c0 == '=' {
        op = ReqOp::Exact;
        k = 1;
    } else if n0 >= 1 && c0 == '~' {
        op = ReqOp::Tilde;
        k = 1;
    } else if n0 >= 1 && c0 == '^' {
        op = ReqOp::Caret;
        k = 1;
    } else {
        op = ReqOp::Caret;
        k = 0;
    }
    proof {
        assert(parse_op(s0@).0 == op && parse_op(s0@).1 == k as int);
    }
    let body = s0.substring_char(k, n0);
    proof {
        assert(body@ =~= s0@.skip(k as int));
    }
    let st = trim(body);
    let s = st.as_str();
    let ghost sv = trim_of(s0@.skip(k as int));
    proof {
        assert(s@ == sv);
    }
    let n = s.unicode_len();
    let plus = crate::text::find_char(s, '+');
    let has_plus = plus.is_some();
    let (rest, build) = match plus {
        Some(i) => {
            proof {
                lemma_find_idx_is(s@, '+', i as int);
            }
            (s.substring_char(0, i), s.substring_char(i + 1, n))
        },
        None => {
            proof {
                lemma_find_idx_none(s@, '+');
            }
            (s.substring_char(0, n), s.substring_char(n, n))
        },
    };
    let ghost ip = find_idx(sv, '+');
    proof {
        if ip >= 0 {
            assert(rest@ =~= sv.subrange(0, ip));
            assert(build@ =~= sv.subrange(ip + 1, sv.len() as int));
        } else {
            assert(rest@ =~= sv);
            assert(build@ =~= Seq::<char>::empty());
        }
    }
    let rn = rest.unicode_len();
    let dash = crate::text::find_char(rest, '-');
    let has_dash = dash.is_some();
    let (core, pre) = match dash {
        Some(i) => {
            proof {
                lemma_find_idx_is(rest@, '-', i as int);
            }
            (rest.substring_char(0, i), rest.substring_char(i + 1, rn))
        },
        None => {
            proof {
                lemma_find_idx_none(rest@, '-');
            }
            (rest.substring_char(0, rn), rest.substring_char(rn, rn))
        },
    };
    let ghost id = find_idx(rest@, '-');
    proof {
        if id >= 0 {
            assert(core@ =~= rest@.subrange(0, id));
            assert(pre@ =~= rest@.subrange(id + 1, rest@.len() as int));
        } else {
            assert(core@ =~= rest@);
            assert(pre@ =~= Seq::<char>::empty());
        }
    }
    let segs = split_string(core, '.');
    let ghost sp = split_on(core@, '.');
    proof {
        assert(segs@.map_values(|t: String| t@).len() == sp.len());
    }
    if segs.len() < 1 || segs.len() > 3 {
        return None;
    }
    proof {
        assert(sp[0] == segs@.map_values(|t: String| t@)[0]);
        if sp.len() >= 2 {
            assert(sp[1] == segs@.map_values(|t: String| t@)[1]);
        }
        if sp.len() == 3 {
            assert(sp[2] == segs@.map_values(|t: String| t@)[2]);
        }
    }
    let major = match numeral_u64(segs[0].as_str()) {
        Some(v) => v,
        None => {
            return None;
        },
    };
    let wild1 = segs.len() >= 2 && is_wild_str(segs[1].as_str());
    let wild2 = segs.len() == 3 && is_wild_str(segs[2].as_str());
    if wild1 || wild2 {
        let op_ok = match op {
            ReqOp::Exact => true,
            _ => k == 0,
        };
        if !(op_ok && !has_dash && !has_plus) {
            return None;
        }
        if segs.len() == 2 && wild1 {
            return Some(
                Comparator {
                    op: ReqOp::Wildcard,
                    major,
                    minor: None,
                    patch: None,
                    pre: String::new(),
                },
            );
        }
        if segs.len() == 3 && wild1 && wild2 {
            return Some(
                Comparator {
                    op: ReqOp::Wildcard,
                    major,
                    minor: None,
                    patch: None,
                    pre: String::new(),
                },
            );
        }
        if segs.len() == 3 && wild2 {
            match numeral_u64(segs[1].as_str()) {
                Some(m) => {
                    return Some(
                        Comparator {
                            op: ReqOp::Wildcard,
                            major,
                            minor: Some(m),
                            patch: None,
                            pre: String::new(),
                        },
                    );
                },
                None => {
                    return None;
                },
            }
        }
        return None;
    }
    let minor: Option<u64> = if segs.len() >= 2 {
        match numeral_u64(segs[1].as_str()) {
            Some(m) => Some(m),
            None => {
                return None;
            },
        }
    } else {
        None
    };
    let patch: Option<u64> = if segs.len() == 3 {
        match numeral_u64(segs[2].as_str()) {
            Some(p) => Some(p),
            None => {
                return None;
            },
        }
    } else {
        None
    };
    if (has_dash || has_plus) && segs.len() != 3 {
        return None;
    }
    if has_dash {
        if pre.unicode_len() == 0 || !crate::version::check_label_pre(pre) {
            return None;
        }
    }
    if has_plus {
        if build.unicode_len() == 0 || !crate::version::check_label_build(build) {
            return None;
        }
    }
    Some(Comparator { op, major, minor, patch, pre: str_to_string(pre) })
}

/// A canonical numeral within `u64`, or nothing.
fn numeral_u64(s: &str) -> (r: Option<u64>)
    ensures
        match r {
            Some(v) => good_numeral(s@) && v as nat == dec_val(s@),
            None => !good_numeral(s@),
        },
{
    let v = match parse_u64(s) {
        Some(v) => v,
        None => {
            return None;
        },
    };
    if s.unicode_len() > 1 && s.get_char(0) == '0' {
        return None;
    }
    Some(v)
}

/// Whether the segment is a wildcard: `*`, `x`, or `X`.
fn is_wild_str(s: &str) -> (r: bool)
    ensures
        r == is_wild_seg(s@),
{
    if s.unicode_len() != 1 {
        proof {
            assert(seq!['*'].len() == 1);
            assert(seq!['x'].len() == 1);
            assert(seq!['X'].len() == 1);
        }
        return false;
    }
    let c = s.get_char(0);
    let r = c == '*' || c == 'x' || c == 'X';
    proof {
        assert(s@ =~= seq![s@[0]]);
        if r {
            assert(is_wild_seg(s@));
        } else {
            assert(s@ != seq!['*'] && s@ != seq!['x'] && s@ != seq!['X']) by {
                assert(seq!['*'][0] == '*' && seq!['x'][0] == 'x' && seq!['X'][0] == 'X');
            }
        }
    }
    r
}

/// A version requirement: the text as given, and its comparators.
#[derive(Clone, Debug, PartialEq, Eq)]
pub struct VersionReq {
    pub text: String,
    pub comparators: Vec<Comparator>,
}

impl View for VersionReq {
    type V = Seq<ComparatorView>;

    open spec fn view(&self) -> Seq<ComparatorView> {
        self.comparators@.map_values(|c: Comparator| c@)
    }
}

impl VersionReq {
    /// The text this requirement was read from.
    pub open spec fn spec_text(&self) -> Seq<char> {
        self.text@
    }

    /// The comparators agree with the stored text.
    pub open spec fn wf(&self) -> bool {
        parse_req(self.text@) == Some(self@)
    }

    /// Reads a requirement from text.
    pub fn parse(s: &str) -> (r: Option<VersionReq>)
        ensures
            match r {
                Some(q) => parse_req(s@) == Some(q@) && q.wf() && q.spec_text() == s@,
                None => parse_req(s@) is None,
            },
    {
        let t = trim(s);
        let tn = t.as_str().unicode_len();
        if tn == 0 {
            return None;
        }
        if tn == 1 && t.as_str().get_char(0) == '*' {
            proof {
                assert(trim_of(s@) =~= seq!['*']);
            }
            let q = VersionReq { text: str_to_string(s), comparators: Vec::new() };
            proof {
                assert(q@ =~= Seq::<ComparatorView>::empty());
            }
            return Some(q);
        }
        proof {
            assert(trim_of(s@) != seq!['*']) by {
                if trim_of(s@) == seq!['*'] {
                    assert(t@.len() == 1 && t@[0] == '*');
                }
            }
        }
        let parts = split_string(s, ',');
        let ghost pv = split_on(s@, ',');
        let mut comparators: Vec<Comparator> = Vec::new();
        let mut i: usize = 0;
        let m = parts.len();
        proof {
            assert(parts@.map_values(|t2: String| t2@).len() == pv.len());
            assert(pv.subrange(0, 0) =~= Seq::<Seq<char>>::empty());
        }
        while i < m
            invariant
                0 <= i <= m,
                m == pv.len(),
                parts@.map_values(|t2: String| t2@) == pv,
                pv == split_on(s@, ','),
                trim_of(s@).len() > 0,
                trim_of(s@) != seq!['*'],
                parse_comparators(pv.subrange(0, i as int)) == Some(
                    comparators@.map_values(|c: Comparator| c@),
                ),
            decreases m - i,
        {
            proof {
                assert(pv[i as int] == parts@.map_values(|t2: String| t2@)[i as int]);
            }
            let part = trim(parts[i].as_str());
            let c = match parse_comparator_str(part.as_str()) {
                Some(c) => c,
                None => {
                    proof {
                        assert(trim_of(trim_of(pv[i as int])) == trim_of(pv[i as int])) by {
                            lemma_trim_idempotent(pv[i as int]);
                        }
                        assert(pv.subrange(0, i + 1).drop_last() =~= pv.subrange(0, i as int));
                        assert(pv.subrange(0, i + 1).last() == pv[i as int]);
                        lemma_parse_comparators_extends(pv, i as int);
                    }
                    return None;
                },
            };
            comparators.push(c);
            proof {
                assert(trim_of(trim_of(pv[i as int])) == trim_of(pv[i as int])) by {
                    lemma_trim_idempotent(pv[i as int]);
                }
                assert(pv.subrange(0, i + 1).drop_last() =~= pv.subrange(0, i as int));
                assert(pv.subrange(0, i + 1).last() == pv[i as int]);
                assert(comparators@.map_values(|c2: Comparator| c2@) =~= comparators@.drop_last()
                    .map_values(|c2: Comparator| c2@).push(comparators@.last()@));
            }
            i = i + 1;
        }
        proof {
            assert(pv.subrange(0, m as int) =~= pv);
        }
        Some(VersionReq { text: str_to_string(s), comparators })
    }

    /// A requirement every release satisfies.
    pub fn any() -> (r: VersionReq)
        ensures
            r@ == Seq::<ComparatorView>::empty(),
            r.wf(),
            r.spec_text() == "*"@,
    {
        let mut text = String::new();
        crate::text::push_char(&mut text, '*');
        proof {
            reveal_strlit("*");
            assert(text@ =~= seq!['*']);
            assert(text@ =~= "*"@);
            assert(trim_of(text@) == text@);
        }
        let r = VersionReq { text, comparators: Vec::new() };
        proof {
            assert(r@ =~= Seq::<ComparatorView>::empty());
            assert(parse_req(r.text@) == Some(Seq::<ComparatorView>::empty()));
        }
        r
    }

    /// Whether the version satisfies every comparator, pre-release rule
    /// included.
    pub fn matches(&self, v: &Version) -> (r: bool)
        ensures
            r == req_matches(self@, v@),
    {
        let m = self.comparators.len();
        let mut i: usize = 0;
        while i < m
            invariant
                0 <= i <= m,
                m == self.comparators@.len(),
                forall|k: int| 0 <= k < i ==> cmp_matches(#[trigger] self@[k], v@),
            decreases m - i,
        {
            if !self.comparators[i].matches(v) {
                proof {
                    assert(!cmp_matches(self@[i as int], v@));
                }
                return false;
            }
            proof {
                assert(self@[i as int] == self.comparators@[i as int]@);
            }
            i = i + 1;
        }
        if v.pre.as_str().unicode_len() == 0 {
            return true;
        }
        let mut j: usize = 0;
        while j < m
            invariant
                0 <= j <= m,
                m == self.comparators@.len(),
                forall|k: int| 0 <= k < m ==> cmp_matches(#[trigger] self@[k], v@),
                forall|k: int| 0 <= k < j ==> !pre_compatible(#[trigger] self@[k], v@),
            decreases m - j,
        {
            let c = &self.comparators[j];
            let ok = c.major == v.major && (match c.minor {
                Some(x) => x == v.minor,
                None => false,
            }) && (match c.patch {
                Some(x) => x == v.patch,
                None => false,
            }) && c.pre.as_str().unicode_len() > 0;
            proof {
                assert(self@[j as int] == self.comparators@[j as int]@);
            }
            if ok {
                assert(pre_compatible(self@[j as int], v@));
                return true;
            }
            j = j + 1;
        }
        false
    }

    /// The comparators, for callers that need to look inside.
    pub fn comparators(&self) -> (r: &Vec<Comparator>)
        ensures
            r@.map_values(|c: Comparator| c@) == self@,
    {
        &self.comparators
    }

    /// A field-by-field copy.
    pub fn duplicate(&self) -> (r: VersionReq)
        ensures
            r@ == self@,
            r.spec_text() == self.spec_text(),
    {
        let mut comparators: Vec<Comparator> = Vec::new();
        let n = self.comparators.len();
        let mut i: usize = 0;
        while i < n
            invariant
                0 <= i <= n,
                n == self.comparators@.len(),
                comparators@.map_values(|c: Comparator| c@) == self.comparators@.subrange(
                    0,
                    i as int,
                ).map_values(|c: Comparator| c@),
            decreases n - i,
        {
            let ghost pre = comparators@;
            let copied = self.comparators[i].duplicate();
            comparators.push(copied);
            proof {
                crate::text::lemma_map_view_push(pre, self.comparators@, copied, i as int);
            }
            i = i + 1;
        }
        proof {
            assert(self.comparators@.subrange(0, n as int) =~= self.comparators@);
        }
        VersionReq { text: str_to_string(self.text.as_str()), comparators }
    }

    /// The text this requirement was read from.
    pub fn to_text(&self) -> (r: String)
        ensures
            r@ == self.spec_text(),
    {
        str_to_string(self.text.as_str())
    }
}

/// Trimming is idempotent.
pub proof fn lemma_trim_idempotent(s: Seq<char>)
    ensures
        trim_of(trim_of(s)) == trim_of(s),
    decreases s.len(),
{
    if s.len() == 0 {
    } else if crate::text::is_space(s.first()) {
        lemma_trim_idempotent(s.drop_first());
    } else if crate::text::is_space(s.last()) {
        lemma_trim_idempotent(s.drop_last());
    } else {
    }
}

proof fn lemma_parse_comparators_extends(pv: Seq<Seq<char>>, i: int)
    requires
        0 <= i < pv.len(),
        parse_comparator(trim_of(pv[i])) is None,
    ensures
        parse_comparators(pv) is None,
    decreases pv.len() - i,
{
    if i == pv.len() - 1 {
        assert(pv.last() == pv[i]);
    } else {
        lemma_parse_comparators_extends(pv.drop_last(), i);
        assert(pv.drop_last()[i] == pv[i]);
    }
}

} // verus!

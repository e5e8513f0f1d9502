//! Character-level string utilities: decimal numerals, prefix and substring
//! tests, and building strings character by character.

use vstd::prelude::*;

verus! {

/// Appends one character.
///
/// Relies on std's String::push: appends the given char to the end of the
/// string.
#[verifier::external_body]
pub fn push_char(s: &mut String, c: char)
    ensures
        final(s)@ == old(s)@.push(c),
{
    s.push(c);
}

pub open spec fn is_digit(c: char) -> bool {
    '0' <= c && c <= '9'
}

pub open spec fn digit_val(c: char) -> nat
    recommends
        is_digit(c),
{
    (c as nat - '0' as nat) as nat
}

pub open spec fn digit_char(d: nat) -> char
    recommends
        d < 10,
{
    (d + '0' as nat) as char
}

/// The numeric value of a digit string, most significant digit first.
pub open spec fn dec_val(s: Seq<char>) -> nat
    decreases s.len(),
{
    if s.len() == 0 {
        0
    } else {
        dec_val(s.drop_last()) * 10 + digit_val(s.last())
    }
}

/// The canonical decimal numeral of a number: no leading zeros.
pub open spec fn dec_str(n: nat) -> Seq<char>
    decreases n,
{
    if n < 10 {
        seq![digit_char(n)]
    } else {
        dec_str(n / 10).push(digit_char(n % 10))
    }
}

pub open spec fn all_digits(s: Seq<char>) -> bool {
    forall|i: int| 0 <= i < s.len() ==> is_digit(#[trigger] s[i])
}

/// A canonical numeral: digits only, nonempty, and no superfluous leading zero.
pub open spec fn is_canonical_numeral(s: Seq<char>) -> bool {
    &&& all_digits(s)
    &&& s.len() > 0
    &&& (s.len() > 1 ==> s[0] != '0')
}

pub proof fn lemma_digit_char(d: nat)
    requires
        d < 10,
    ensures
        is_digit(digit_char(d)),
        digit_val(digit_char(d)) == d,
{
}

pub proof fn lemma_dec_str_canonical(n: nat)
    ensures
        is_canonical_numeral(dec_str(n)),
        n > 0 ==> dec_str(n)[0] != '0',
    decreases n,
{
    if n < 10 {
        lemma_digit_char(n);
        assert(dec_str(n) == seq![digit_char(n)]);
        assert(dec_str(n)[0] == digit_char(n));
    } else {
        lemma_dec_str_canonical(n / 10);
        lemma_digit_char(n % 10);
        let s = dec_str(n / 10);
        let t = dec_str(n);
        assert(t == s.push(digit_char(n % 10)));
        assert(forall|i: int|
            0 <= i < t.len() ==> #[trigger] t[i] == if i < s.len() {
                s[i]
            } else {
                digit_char(n % 10)
            });
        assert(t[0] == s[0]);
    }
}

pub proof fn lemma_dec_round_trip(n: nat)
    ensures
        dec_val(dec_str(n)) == n,
    decreases n,
{
    if n < 10 {
        lemma_digit_char(n);
        assert(dec_str(n) == seq![digit_char(n)]);
        assert(dec_str(n).drop_last() =~= Seq::<char>::empty());
        assert(dec_val(Seq::<char>::empty()) == 0);
        assert(dec_str(n).last() == digit_char(n));
        assert(dec_val(dec_str(n)) == dec_val(dec_str(n).drop_last()) * 10 + digit_val(
            dec_str(n).last(),
        ));
    } else {
        lemma_dec_round_trip(n / 10);
        lemma_digit_char(n % 10);
        assert(dec_str(n).drop_last() =~= dec_str(n / 10));
        assert(dec_str(n).last() == digit_char(n % 10));
        assert(dec_val(dec_str(n)) == dec_val(dec_str(n / 10)) * 10 + digit_val(
            digit_char(n % 10),
        ));
        assert(n == (n / 10) * 10 + n % 10);
    }
}

/// Appending digits never decreases the value.
pub proof fn lemma_dec_val_prefix(s: Seq<char>, i: int)
    requires
        0 <= i <= s.len(),
    ensures
        dec_val(s.subrange(0, i)) <= dec_val(s),
    decreases s.len() - i,
{
    if i < s.len() {
        lemma_dec_val_prefix(s, i + 1);
        assert(s.subrange(0, i + 1).drop_last() =~= s.subrange(0, i));
        assert(s.subrange(0, i + 1).last() == s[i]);
        assert(dec_val(s.subrange(0, i)) <= dec_val(s.subrange(0, i + 1)));
        if i + 1 == s.len() {
            assert(s.subrange(0, i + 1) =~= s);
        }
    } else {
        assert(s.subrange(0, i) =~= s);
    }
}

/// Writes a number in decimal, most significant digit first.
pub fn u64_to_dec(n: u64) -> (r: String)
    ensures
        r@ == dec_str(n as nat),
{
    let mut digits: Vec<char> = Vec::new();
    let mut m: u64 = n;
    loop
        invariant_except_break
            dec_str(n as nat) == dec_str(m as nat) + digits@.reverse(),
        ensures
            dec_str(n as nat) == digits@.reverse(),
        decreases m,
    {
        let ghost pre = digits@;
        let d: u64 = m % 10;
        digits.push((d as u8 + 48) as char);
        proof {
            assert(digit_char((m % 10) as nat) == ((m % 10) as u8 + 48) as char);
            assert(digits@.reverse() =~= seq![digit_char((m % 10) as nat)] + pre.reverse());
            if m >= 10 {
                assert(dec_str(m as nat) == dec_str((m / 10) as nat).push(
                    digit_char((m % 10) as nat),
                ));
                assert(dec_str((m / 10) as nat) + digits@.reverse() =~= dec_str(m as nat)
                    + pre.reverse());
            } else {
                assert(dec_str(m as nat) =~= seq![digit_char((m % 10) as nat)]);
                assert(dec_str(m as nat) + pre.reverse() =~= digits@.reverse());
            }
        }
        if m < 10 {
            break;
        }
        m = m / 10;
    }
    let mut r = String::new();
    let mut i: usize = digits.len();
    while i > 0
        invariant
            i <= digits@.len(),
            dec_str(n as nat) == digits@.reverse(),
            r@ == digits@.skip(i as int).reverse(),
        decreases i,
    {
        i = i - 1;
        let c = digits[i];
        push_char(&mut r, c);
        proof {
            assert(digits@.skip(i as int) =~= seq![digits@[i as int]] + digits@.skip(i + 1));
            assert(digits@.skip(i as int).reverse() =~= digits@.skip(i + 1).reverse().push(
                digits@[i as int],
            ));
        }
    }
    proof {
        assert(digits@.skip(0) =~= digits@);
    }
    r
}

/// Reads a decimal numeral. Fails on empty input, on a non-digit, and on a
/// value that does not fit in a `u64`.
pub fn parse_u64(s: &str) -> (r: Option<u64>)
    ensures
        match r {
            Some(v) => all_digits(s@) && s@.len() > 0 && v as nat == dec_val(s@),
            None => !(all_digits(s@) && s@.len() > 0 && dec_val(s@) <= u64::MAX),
        },
{
    let n = s.unicode_len();
    if n == 0 {
        return None;
    }
    let mut val: u64 = 0;
    let mut i: usize = 0;
    while i < n
        invariant
            0 <= i <= n,
            n == s@.len(),
            all_digits(s@.subrange(0, i as int)),
            val as nat == dec_val(s@.subrange(0, i as int)),
        decreases n - i,
    {
        let c = s.get_char(i);
        if c < '0' || c > '9' {
            assert(!is_digit(s@[i as int]));
            return None;
        }
        let d: u64 = (c as u32 as u64) - 48;
        let next = match val.checked_mul(10) {
            Some(x) => x.checked_add(d),
            None => None,
        };
        proof {
            assert(s@.subrange(0, i + 1).drop_last() =~= s@.subrange(0, i as int));
            assert(s@.subrange(0, i + 1).last() == s@[i as int]);
            assert(digit_val(s@[i as int]) == d as nat);
            if val as nat * 10 + d as nat > u64::MAX {
                lemma_dec_val_prefix(s@, i + 1);
            }
        }
        match next {
            Some(x) => {
                val = x;
            },
            None => {
                return None;
            },
        }
        i = i + 1;
    }
    proof {
        assert(s@.subrange(0, n as int) =~= s@);
    }
    Some(val)
}

pub open spec fn is_prefix(s: Seq<char>, p: Seq<char>) -> bool {
    p.len() <= s.len() && s.subrange(0, p.len() as int) == p
}

/// Whether `p` begins `s`.
pub fn starts_with(s: &str, p: &str) -> (r: bool)
    ensures
        r == is_prefix(s@, p@),
{
    let sn = s.unicode_len();
    let pn = p.unicode_len();
    if pn > sn {
        return false;
    }
    let mut i: usize = 0;
    while i < pn
        invariant
            0 <= i <= pn <= sn,
            sn == s@.len(),
            pn == p@.len(),
            forall|j: int| 0 <= j < i ==> s@[j] == p@[j],
        decreases pn - i,
    {
        if s.get_char(i) != p.get_char(i) {
            assert(s@.subrange(0, p@.len() as int) != p@) by {
                assert(s@.subrange(0, p@.len() as int)[i as int] != p@[i as int]);
            }
            return false;
        }
        i = i + 1;
    }
    assert(s@.subrange(0, p@.len() as int) =~= p@);
    true
}

pub open spec fn matches_at(s: Seq<char>, sub: Seq<char>, k: int) -> bool {
    0 <= k && k + sub.len() <= s.len() && s.subrange(k, k + sub.len()) == sub
}

pub open spec fn contains_seq(s: Seq<char>, sub: Seq<char>) -> bool {
    exists|k: int| matches_at(s, sub, k)
}

/// Whether `sub` occurs anywhere in `s`. The empty string occurs in every
/// string.
pub fn contains_str(s: &str, sub: &str) -> (r: bool)
    ensures
        r == contains_seq(s@, sub@),
{
    let sn = s.unicode_len();
    let bn = sub.unicode_len();
    if bn > sn {
        assert(!contains_seq(s@, sub@)) by {
            assert(forall|k: int| !matches_at(s@, sub@, k));
        }
        return false;
    }
    if bn == 0 {
        assert(s@.subrange(0, 0) =~= sub@);
        assert(matches_at(s@, sub@, 0));
        return true;
    }
    let mut k: usize = 0;
    while k <= sn - bn
        invariant
            0 <= k,
            k <= sn - bn + 1,
            1 <= bn <= sn,
            sn == s@.len(),
            bn == sub@.len(),
            forall|j: int| 0 <= j < k ==> !matches_at(s@, sub@, j),
        decreases sn - bn + 1 - k,
    {
        let mut i: usize = 0;
        let mut hit = true;
        while i < bn
            invariant
                0 <= i <= bn,
                0 <= k,
                k + bn <= sn,
                sn == s@.len(),
                bn == sub@.len(),
                hit ==> forall|j: int| 0 <= j < i ==> s@[k + j] == #[trigger] sub@[j],
                !hit ==> !matches_at(s@, sub@, k as int),
            ensures
                hit ==> forall|j: int| 0 <= j < bn ==> s@[k + j] == #[trigger] sub@[j],
                !hit ==> !matches_at(s@, sub@, k as int),
            decreases bn - i,
        {
            if s.get_char(k + i) != sub.get_char(i) {
                hit = false;
                proof {
                    assert(s@.subrange(k as int, k + sub@.len())[i as int] == s@[k + i]);
                    assert(s@.subrange(k as int, k + sub@.len()) != sub@);
                }
                break ;
            }
            i = i + 1;
        }
        if hit {
            assert forall|j: int| 0 <= j < sub@.len() implies s@.subrange(
                k as int,
                k + sub@.len(),
            )[j] == sub@[j] by {
                assert(s@[k + j] == sub@[j]);
            }
            assert(s@.subrange(k as int, k + sub@.len()) =~= sub@);
            assert(matches_at(s@, sub@, k as int));
            return true;
        }
        assert(!matches_at(s@, sub@, k as int));
        k = k + 1;
    }
    assert(forall|j: int| matches_at(s@, sub@, j) ==> 0 <= j <= sn - bn);
    false
}

/// The first position of `c` in `s`, if any.
pub fn find_char(s: &str, c: char) -> (r: Option<usize>)
    ensures
        match r {
            Some(i) => i < s@.len() && s@[i as int] == c && forall|j: int|
                0 <= j < i ==> s@[j] != c,
            None => forall|j: int| 0 <= j < s@.len() ==> s@[j] != c,
        },
{
    let n = s.unicode_len();
    let mut i: usize = 0;
    while i < n
        invariant
            0 <= i <= n,
            n == s@.len(),
            forall|j: int| 0 <= j < i ==> s@[j] != c,
        decreases n - i,
    {
        if s.get_char(i) == c {
            return Some(i);
        }
        i = i + 1;
    }
    None
}

/// Whether the two slices hold the same characters.
pub fn str_eq(a: &str, b: &str) -> (r: bool)
    ensures
        r == (a@ == b@),
{
    let an = a.unicode_len();
    let bn = b.unicode_len();
    if an != bn {
        return false;
    }
    let mut i: usize = 0;
    while i < an
        invariant
            0 <= i <= an,
            an == a@.len(),
            an == b@.len(),
            forall|j: int| 0 <= j < i ==> a@[j] == b@[j],
        decreases an - i,
    {
        if a.get_char(i) != b.get_char(i) {
            return false;
        }
        i = i + 1;
    }
    assert(a@ =~= b@);
    true
}

/// Copies a slice into an owned string.
pub fn str_to_string(s: &str) -> (r: String)
    ensures
        r@ == s@,
{
    let mut r = String::new();
    let n = s.unicode_len();
    let mut i: usize = 0;
    while i < n
        invariant
            0 <= i <= n,
            n == s@.len(),
            r@ == s@.subrange(0, i as int),
        decreases n - i,
    {
        let c = s.get_char(i);
        push_char(&mut r, c);
        proof {
            assert(s@.subrange(0, i + 1) =~= s@.subrange(0, i as int).push(s@[i as int]));
        }
        i = i + 1;
    }
    proof {
        assert(s@.subrange(0, n as int) =~= s@);
    }
    r
}

/// The segments of `s` between occurrences of `c`. Splitting the empty
/// string yields one empty segment; a separator at either end yields an
/// empty segment there.
pub open spec fn split_on(s: Seq<char>, c: char) -> Seq<Seq<char>>
    decreases s.len(),
{
    if s.len() == 0 {
        seq![Seq::<char>::empty()]
    } else if s.last() == c {
        split_on(s.drop_last(), c).push(Seq::<char>::empty())
    } else {
        let sp = split_on(s.drop_last(), c);
        sp.update(sp.len() - 1, sp.last().push(s.last()))
    }
}

pub proof fn lemma_split_on_len(s: Seq<char>, c: char)
    ensures
        split_on(s, c).len() >= 1,
    decreases s.len(),
{
    if s.len() > 0 {
        lemma_split_on_len(s.drop_last(), c);
    }
}

/// Splits on a separator character.
pub fn split_string(s: &str, c: char) -> (r: Vec<String>)
    ensures
        r@.map_values(|t: String| t@) == split_on(s@, c),
{
    let n = s.unicode_len();
    let mut done: Vec<String> = Vec::new();
    let mut cur = String::new();
    let mut i: usize = 0;
    while i < n
        invariant
            0 <= i <= n,
            n == s@.len(),
            split_on(s@.subrange(0, i as int), c) == done@.map_values(|t: String| t@).push(cur@),
        decreases n - i,
    {
        let x = s.get_char(i);
        let ghost pre = s@.subrange(0, i as int);
        proof {
            assert(s@.subrange(0, i + 1).drop_last() =~= pre);
            assert(s@.subrange(0, i + 1).last() == s@[i as int]);
            lemma_split_on_len(pre, c);
        }
        if x == c {
            done.push(cur);
            cur = String::new();
            proof {
                assert(done@.map_values(|t: String| t@) =~= done@.drop_last().map_values(
                    |t: String| t@,
                ).push(done@.last()@));
                assert(split_on(s@.subrange(0, i + 1), c) =~= done@.map_values(
                    |t: String| t@,
                ).push(cur@));
            }
        } else {
            push_char(&mut cur, x);
            proof {
                let sp = split_on(pre, c);
                assert(split_on(s@.subrange(0, i + 1), c) == sp.update(
                    sp.len() - 1,
                    sp.last().push(s@[i as int]),
                ));
                assert(split_on(s@.subrange(0, i + 1), c) =~= done@.map_values(
                    |t: String| t@,
                ).push(cur@));
            }
        }
        i = i + 1;
    }
    proof {
        assert(s@.subrange(0, n as int) =~= s@);
    }
    done.push(cur);
    proof {
        assert(done@.map_values(|t: String| t@) =~= done@.drop_last().map_values(
            |t: String| t@,
        ).push(done@.last()@));
    }
    done
}

/// Splitting around one separator splits each side on its own.
pub proof fn lemma_split_on_concat(x: Seq<char>, y: Seq<char>, c: char)
    ensures
        split_on(x + seq![c] + y, c) == split_on(x, c) + split_on(y, c),
    decreases y.len(),
{
    let s = x + seq![c] + y;
    if y.len() == 0 {
        assert(s =~= x.push(c));
        assert(s.last() == c);
        assert(s.drop_last() =~= x);
        assert(split_on(s, c) == split_on(x, c).push(Seq::<char>::empty()));
        assert(split_on(y, c) == seq![Seq::<char>::empty()]);
        assert(split_on(x, c).push(Seq::<char>::empty()) =~= split_on(x, c) + split_on(y, c));
    } else {
        lemma_split_on_concat(x, y.drop_last(), c);
        let t = x + seq![c] + y.drop_last();
        assert(s.last() == y.last());
        assert(s.drop_last() =~= t);
        lemma_split_on_len(y.drop_last(), c);
        lemma_split_on_len(x, c);
        if y.last() == c {
            assert(split_on(s, c) == split_on(t, c).push(Seq::<char>::empty()));
            assert(split_on(y, c) == split_on(y.drop_last(), c).push(Seq::<char>::empty()));
            assert(split_on(t, c).push(Seq::<char>::empty()) =~= split_on(x, c) + split_on(y, c));
        } else {
            let sp = split_on(t, c);
            let spy = split_on(y.drop_last(), c);
            assert(split_on(s, c) == sp.update(sp.len() - 1, sp.last().push(y.last())));
            assert(split_on(y, c) == spy.update(spy.len() - 1, spy.last().push(y.last())));
            assert(sp == split_on(x, c) + spy);
            assert(sp.last() == spy.last());
            assert(sp.update(sp.len() - 1, sp.last().push(y.last())) =~= split_on(x, c)
                + spy.update(spy.len() - 1, spy.last().push(y.last())));
        }
    }
}

/// A string without the separator is one segment.
pub proof fn lemma_split_on_whole(t: Seq<char>, c: char)
    requires
        forall|i: int| 0 <= i < t.len() ==> t[i] != c,
    ensures
        split_on(t, c) == seq![t],
    decreases t.len(),
{
    if t.len() > 0 {
        assert(forall|i: int|
            0 <= i < t.drop_last().len() ==> #[trigger] t.drop_last()[i] == t[i]);
        lemma_split_on_whole(t.drop_last(), c);
        assert(t.last() != c);
        let sp = split_on(t.drop_last(), c);
        assert(sp == seq![t.drop_last()]);
        assert(split_on(t, c) == sp.update(0, sp.last().push(t.last())));
        assert(t.drop_last().push(t.last()) =~= t);
        assert(sp.update(0, sp.last().push(t.last())) =~= seq![t]);
    } else {
        assert(t =~= Seq::<char>::empty());
        assert(seq![t] =~= seq![Seq::<char>::empty()]);
    }
}

/// The position of the first occurrence of `c` in `s`, or -1.
pub open spec fn find_idx(s: Seq<char>, c: char) -> int
    decreases s.len(),
{
    if s.len() == 0 {
        -1
    } else if s.first() == c {
        0
    } else {
        let r = find_idx(s.drop_first(), c);
        if r == -1 {
            -1
        } else {
            r + 1
        }
    }
}

/// What pins `find_idx` down: the first hit, or no hit at all.
pub proof fn lemma_find_idx_is(s: Seq<char>, c: char, i: int)
    requires
        0 <= i < s.len(),
        s[i] == c,
        forall|j: int| 0 <= j < i ==> s[j] != c,
    ensures
        find_idx(s, c) == i,
    decreases s.len(),
{
    if s.first() == c {
        assert(i == 0);
    } else {
        assert(i >= 1);
        let t = s.drop_first();
        assert(t[i - 1] == c);
        assert(forall|j: int| 0 <= j < i - 1 ==> t[j] == s[j + 1] && t[j] != c);
        lemma_find_idx_is(t, c, i - 1);
    }
}

pub proof fn lemma_find_idx_none(s: Seq<char>, c: char)
    requires
        forall|j: int| 0 <= j < s.len() ==> s[j] != c,
    ensures
        find_idx(s, c) == -1,
    decreases s.len(),
{
    if s.len() > 0 {
        let t = s.drop_first();
        assert(forall|j: int| 0 <= j < t.len() ==> t[j] == s[j + 1] && t[j] != c);
        lemma_find_idx_none(t, c);
    }
}

/// Copying one more element keeps the views of a growing sequence aligned
/// with the prefix it mirrors.
pub proof fn lemma_map_view_push<T: View>(pre: Seq<T>, all: Seq<T>, x: T, i: int)
    requires
        0 <= i < all.len(),
        pre.map_values(|t: T| t@) == all.subrange(0, i).map_values(|t: T| t@),
        x@ == all[i]@,
    ensures
        pre.push(x).map_values(|t: T| t@) == all.subrange(0, i + 1).map_values(|t: T| t@),
{
    assert(pre.map_values(|t: T| t@).len() == pre.len());
    assert(all.subrange(0, i).map_values(|t: T| t@).len() == i);
    assert(pre.len() == i);
    assert forall|j: int| 0 <= j < i + 1 implies (#[trigger] pre.push(x)[j])@ == all[j]@ by {
        if j < i {
            assert(pre.push(x)[j] == pre[j]);
            assert(pre.map_values(|t: T| t@)[j] == pre[j]@);
            assert(all.subrange(0, i).map_values(|t: T| t@)[j] == all.subrange(0, i)[j]@);
            assert(all.subrange(0, i)[j] == all[j]);
        } else {
            assert(pre.push(x)[j] == x);
        }
    }
    assert(pre.push(x).map_values(|t: T| t@) =~= all.subrange(0, i + 1).map_values(|t: T| t@));
}

/// Whether some string in the sequence reads as `s`.
pub open spec fn seq_has_string(v: Seq<String>, s: Seq<char>) -> bool {
    exists|j: int| 0 <= j < v.len() && (#[trigger] v[j])@ == s
}

/// Whether some element of the vector reads as `s`.
pub fn vec_contains_str(v: &Vec<String>, s: &str) -> (r: bool)
    ensures
        r == seq_has_string(v@, s@),
{
    let n = v.len();
    let mut j: usize = 0;
    while j < n
        invariant
            0 <= j <= n,
            n == v@.len(),
            forall|y: int| 0 <= y < j ==> (#[trigger] v@[y])@ != s@,
        decreases n - j,
    {
        if str_eq(v[j].as_str(), s) {
            assert(v@[j as int]@ == s@);
            return true;
        }
        j = j + 1;
    }
    false
}

/// The view of an optional string.
pub open spec fn view_opt(o: Option<String>) -> Option<Seq<char>> {
    match o {
        Some(s) => Some(s@),
        None => None,
    }
}

pub open spec fn is_space(c: char) -> bool {
    c == ' ' || c == '\t' || c == '\r'
}

/// `s` without leading and trailing blanks.
pub open spec fn trim_of(s: Seq<char>) -> Seq<char>
    decreases s.len(),
{
    if s.len() == 0 {
        s
    } else if is_space(s.first()) {
        trim_of(s.drop_first())
    } else if is_space(s.last()) {
        trim_of(s.drop_last())
    } else {
        s
    }
}

proof fn lemma_trim_skip(s: Seq<char>, a: int)
    requires
        0 <= a <= s.len(),
        forall|j: int| 0 <= j < a ==> is_space(s[j]),
        a < s.len() ==> !is_space(s[a]),
    ensures
        trim_of(s) == trim_of(s.skip(a)),
    decreases a,
{
    if a > 0 {
        assert(is_space(s.first()));
        assert(s.drop_first() =~= s.skip(1));
        lemma_trim_skip(s.skip(1), a - 1);
        assert(s.skip(1).skip(a - 1) =~= s.skip(a));
    } else {
        assert(s.skip(0) =~= s);
    }
}

proof fn lemma_trim_take(s: Seq<char>, b: int)
    requires
        0 <= b <= s.len(),
        forall|j: int| b <= j < s.len() ==> is_space(s[j]),
        b > 0 ==> !is_space(s[b - 1]),
        s.len() > 0 ==> !is_space(s.first()) || b == 0,
    ensures
        trim_of(s) == trim_of(s.take(b)),
    decreases s.len() - b,
{
    if b < s.len() {
        if b == 0 {
            if s.len() > 0 {
                if is_space(s.first()) {
                    assert(forall|j: int| 0 <= j < s.len() ==> is_space(s[j]));
                    lemma_trim_all_space(s);
                    assert(s.take(0) =~= Seq::<char>::empty());
                } else {
                    assert(is_space(s.last()));
                    assert(s.drop_last() =~= s.take(s.len() - 1));
                    lemma_trim_take(s.take(s.len() - 1), 0);
                    assert(s.take(s.len() - 1).take(0) =~= s.take(0));
                }
            }
        } else {
            assert(is_space(s.last()));
            assert(s.drop_last() =~= s.take(s.len() - 1));
            lemma_trim_take(s.take(s.len() - 1), b);
            assert(s.take(s.len() - 1).take(b) =~= s.take(b));
            assert(!is_space(s.first()));
        }
    } else {
        assert(s.take(b) =~= s);
    }
}

proof fn lemma_trim_all_space(s: Seq<char>)
    requires
        forall|j: int| 0 <= j < s.len() ==> is_space(s[j]),
    ensures
        trim_of(s) == Seq::<char>::empty(),
    decreases s.len(),
{
    if s.len() > 0 {
        lemma_trim_all_space(s.drop_first());
    }
}

/// Removes leading and trailing blanks.
pub fn trim(s: &str) -> (r: String)
    ensures
        r@ == trim_of(s@),
{
    let n = s.unicode_len();
    let mut a: usize = 0;
    loop
        invariant_except_break
            0 <= a <= n,
            n == s@.len(),
            forall|j: int| 0 <= j < a ==> is_space(s@[j]),
        ensures
            0 <= a <= n,
            n == s@.len(),
            forall|j: int| 0 <= j < a ==> is_space(s@[j]),
            a < n ==> !is_space(s@[a as int]),
        decreases n - a,
    {
        if a >= n {
            break ;
        }
        let c = s.get_char(a);
        if !(c == ' ' || c == '\t' || c == '\r') {
            break ;
        }
        a = a + 1;
    }
    if a == n {
        proof {
            lemma_trim_all_space(s@);
        }
        return String::new();
    }
    let mut b: usize = n;
    loop
        invariant_except_break
            a < b <= n,
            n == s@.len(),
            !is_space(s@[a as int]),
            forall|j: int| b <= j < n ==> is_space(s@[j]),
        ensures
            a < b <= n,
            forall|j: int| b <= j < n ==> is_space(s@[j]),
            !is_space(s@[b - 1]),
        decreases b,
    {
        let c = s.get_char(b - 1);
        if !(c == ' ' || c == '\t' || c == '\r') {
            break ;
        }
        if b - 1 == a {
            break ;
        }
        b = b - 1;
    }
    assert(!is_space(s@[a as int]));
    assert(b > a);
    assert(!is_space(s@[b - 1]));
    let piece = s.substring_char(a, b);
    proof {
        lemma_trim_skip(s@, a as int);
        let t = s@.skip(a as int);
        lemma_trim_take(t, b - a);
        assert(t.take(b - a) =~= s@.subrange(a as int, b as int));
        let u = t.take(b - a);
        assert(u.len() > 0 && !is_space(u.first()) && !is_space(u.last()));
        assert(trim_of(u) == u);
    }
    str_to_string(piece)
}

pub open spec fn lower_char(c: char) -> char {
    if 'A' <= c && c <= 'Z' {
        ((c as nat) + 32) as char
    } else {
        c
    }
}

pub open spec fn lower_of(s: Seq<char>) -> Seq<char> {
    s.map_values(|c: char| lower_char(c))
}

/// ASCII lower-casing; characters outside 'A'..'Z' are kept.
pub fn to_lowercase(s: &str) -> (r: String)
    ensures
        r@ == lower_of(s@),
{
    let n = s.unicode_len();
    let mut r = String::new();
    let mut i: usize = 0;
    while i < n
        invariant
            0 <= i <= n,
            n == s@.len(),
            r@ == lower_of(s@.subrange(0, i as int)),
        decreases n - i,
    {
        let c = s.get_char(i);
        let d: char = if c >= 'A' && c <= 'Z' {
            (((c as u32) + 32) as u8) as char
        } else {
            c
        };
        push_char(&mut r, d);
        proof {
            assert(d == lower_char(s@[i as int]));
            assert(lower_of(s@.subrange(0, i + 1)) =~= lower_of(s@.subrange(0, i as int)).push(
                lower_char(s@[i as int]),
            ));
        }
        i = i + 1;
    }
    proof {
        assert(s@.subrange(0, n as int) =~= s@);
    }
    r
}

/// `a` then `b`, as a fresh string.
pub fn concat_str(a: &str, b: &str) -> (r: String)
    ensures
        r@ == a@ + b@,
{
    let mut r = str_to_string(a);
    r.append(b);
    r
}

} // verus!

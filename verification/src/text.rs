//! Character-sequence utilities: substring search, whitespace trimming and
//! decimal digit conversion, with exact specifications. All executable code
//! here is verified; the specifications below are the vocabulary the rest of
//! the library uses to describe text.

use vstd::prelude::*;
use vstd::string::StrSliceExecFns;
use vstd::string::StringExecFns;

verus! {

/// The pattern `p` occurs in `t` starting at position `i`.
pub open spec fn match_at(t: Seq<char>, p: Seq<char>, i: int) -> bool {
    0 <= i && i + p.len() <= t.len() && t.subrange(i, i + p.len()) == p
}

/// `p` occurs somewhere in `t`.
pub open spec fn has_sub(t: Seq<char>, p: Seq<char>) -> bool {
    exists|i: int| match_at(t, p, i)
}

/// Position of the first occurrence of `p` in `t` at or after `i`,
/// or `None` when there is none.
pub open spec fn find_from(t: Seq<char>, p: Seq<char>, i: int) -> Option<int>
    recommends
        0 <= i <= t.len(),
    decreases t.len() - i,
        when 0 <= i <= t.len()
{
    if i + p.len() > t.len() {
        None
    } else if match_at(t, p, i) {
        Some(i)
    } else if i < t.len() {
        find_from(t, p, i + 1)
    } else {
        None
    }
}

/// What `find_from` returns is the first match at or after `i`.
pub proof fn lemma_find_from(t: Seq<char>, p: Seq<char>, i: int)
    requires
        0 <= i <= t.len(),
    ensures
        match find_from(t, p, i) {
            Some(j) => match_at(t, p, j) && i <= j
                && forall|k: int| i <= k < j ==> !match_at(t, p, k),
            None => forall|k: int| i <= k ==> !match_at(t, p, k),
        },
    decreases t.len() - i,
{
    if i + p.len() > t.len() {
        assert forall|k: int| i <= k implies !match_at(t, p, k) by {}
    } else if match_at(t, p, i) {
    } else {
        assert(p.len() > 0) by {
            if p.len() == 0 {
                assert(t.subrange(i, i) =~= p);
            }
        }
        lemma_find_from(t, p, i + 1);
    }
}

/// A match is a character-by-character agreement.
pub proof fn lemma_match_at_char(t: Seq<char>, p: Seq<char>, k: int)
    requires
        0 <= k,
        k + p.len() <= t.len(),
    ensures
        match_at(t, p, k) <==> (forall|m: int| 0 <= m < p.len() ==> #[trigger] t[k + m] == p[m]),
{
    if match_at(t, p, k) {
        assert forall|m: int| 0 <= m < p.len() implies #[trigger] t[k + m] == p[m] by {
            assert(t.subrange(k, k + p.len())[m] == p[m]);
        }
    }
    if forall|m: int| 0 <= m < p.len() ==> #[trigger] t[k + m] == p[m] {
        assert forall|m: int| 0 <= m < p.len() implies t.subrange(k, k + p.len())[m] == p[m] by {
            assert(t[k + m] == p[m]);
        }
        assert(t.subrange(k, k + p.len()) =~= p);
    }
}

/// A match of a pattern is a match of each of its prefixes.
pub proof fn lemma_match_at_prefix(t: Seq<char>, p: Seq<char>, n: int, k: int)
    requires
        match_at(t, p, k),
        0 <= n <= p.len(),
    ensures
        match_at(t, p.subrange(0, n), k),
{
    assert forall|m: int| 0 <= m < n implies t.subrange(k, k + n)[m] == p.subrange(0, n)[m] by {
        assert(t.subrange(k, k + p.len())[m] == p[m]);
    }
    assert(t.subrange(k, k + n) =~= p.subrange(0, n));
}

/// Matching carries over between a text and an embedded copy of it.
pub proof fn lemma_match_transfer(r: Seq<char>, c: Seq<char>, off: int, p: Seq<char>, k: int)
    requires
        0 <= off,
        off + c.len() <= r.len(),
        forall|i: int| 0 <= i < c.len() ==> #[trigger] r[off + i] == c[i],
        off <= k,
        k + p.len() <= off + c.len(),
    ensures
        match_at(r, p, k) == match_at(c, p, k - off),
{
    lemma_match_at_char(r, p, k);
    lemma_match_at_char(c, p, k - off);
    if match_at(r, p, k) {
        assert forall|m: int| 0 <= m < p.len() implies #[trigger] c[k - off + m] == p[m] by {
            assert(r[k + m] == p[m]);
            assert(r[off + (k - off + m)] == c[k - off + m]);
        }
    }
    if match_at(c, p, k - off) {
        assert forall|m: int| 0 <= m < p.len() implies #[trigger] r[k + m] == p[m] by {
            assert(c[k - off + m] == p[m]);
            assert(r[off + (k - off + m)] == c[k - off + m]);
        }
    }
}

/// A search that can match nowhere finds nothing.
pub proof fn lemma_find_from_none_char(t: Seq<char>, p: Seq<char>, i: int)
    requires
        0 <= i <= t.len(),
        forall|k: int| i <= k ==> !match_at(t, p, k),
    ensures
        find_from(t, p, i) is None,
    decreases t.len() - i,
{
    if i + p.len() <= t.len() && i < t.len() {
        lemma_find_from_none_char(t, p, i + 1);
    }
}

/// A search finds the first position that matches.
pub proof fn lemma_find_from_some_char(t: Seq<char>, p: Seq<char>, i: int, j: int)
    requires
        0 <= i <= j,
        j + p.len() <= t.len(),
        match_at(t, p, j),
        forall|k: int| i <= k < j ==> !match_at(t, p, k),
    ensures
        find_from(t, p, i) == Some(j),
    decreases j - i,
{
    if i < j {
        lemma_find_from_some_char(t, p, i + 1, j);
    }
}

/// Whether `c` is trimmed as whitespace: the Unicode white-space
/// characters, the same set `str::trim` removes.
pub open spec fn is_ws(c: char) -> bool {
    ||| c == '\t'
    ||| c == '\n'
    ||| c == '\u{0B}'
    ||| c == '\u{0C}'
    ||| c == '\r'
    ||| c == ' '
    ||| c == '\u{85}'
    ||| c == '\u{A0}'
    ||| c == '\u{1680}'
    ||| ('\u{2000}' as u32 <= c as u32 && c as u32 <= '\u{200A}' as u32)
    ||| c == '\u{2028}'
    ||| c == '\u{2029}'
    ||| c == '\u{202F}'
    ||| c == '\u{205F}'
    ||| c == '\u{3000}'
}

/// Index of the first non-whitespace character at or after `i`
/// (`s.len()` when the rest is all whitespace).
pub open spec fn skip_ws_from(s: Seq<char>, i: int) -> int
    recommends
        0 <= i <= s.len(),
    decreases s.len() - i,
        when 0 <= i <= s.len()
{
    if i < s.len() && is_ws(s[i]) {
        skip_ws_from(s, i + 1)
    } else {
        i
    }
}

pub proof fn lemma_skip_ws_from(s: Seq<char>, i: int)
    requires
        0 <= i <= s.len(),
    ensures
        i <= skip_ws_from(s, i) <= s.len(),
        skip_ws_from(s, i) < s.len() ==> !is_ws(s[skip_ws_from(s, i)]),
        forall|k: int| i <= k < skip_ws_from(s, i) ==> is_ws(s[k]),
    decreases s.len() - i,
{
    if i < s.len() && is_ws(s[i]) {
        lemma_skip_ws_from(s, i + 1);
    }
}

/// End of `s` with trailing whitespace before position `j` removed.
pub open spec fn rskip_ws_from(s: Seq<char>, j: int) -> int
    recommends
        0 <= j <= s.len(),
    decreases j,
        when 0 <= j <= s.len()
{
    if j > 0 && is_ws(s[j - 1]) {
        rskip_ws_from(s, j - 1)
    } else {
        j
    }
}

pub proof fn lemma_rskip_ws_from(s: Seq<char>, j: int)
    requires
        0 <= j <= s.len(),
    ensures
        0 <= rskip_ws_from(s, j) <= j,
        rskip_ws_from(s, j) > 0 ==> !is_ws(s[rskip_ws_from(s, j) - 1]),
        forall|k: int| rskip_ws_from(s, j) <= k < j ==> is_ws(s[k]),
    decreases j,
{
    if j > 0 && is_ws(s[j - 1]) {
        lemma_rskip_ws_from(s, j - 1);
    }
}

/// `s` with leading and trailing whitespace removed.
pub open spec fn trim_seq(s: Seq<char>) -> Seq<char> {
    let a = skip_ws_from(s, 0);
    let b = rskip_ws_from(s, s.len() as int);
    if a <= b {
        s.subrange(a, b)
    } else {
        Seq::empty()
    }
}

/// Whether `c` is an ASCII decimal digit.
pub open spec fn is_digit(c: char) -> bool {
    '0' as u32 <= c as u32 && c as u32 <= '9' as u32
}

pub open spec fn all_digits(s: Seq<char>) -> bool {
    forall|k: int| 0 <= k < s.len() ==> is_digit(#[trigger] s[k])
}

/// Numeric value of a digit character.
pub open spec fn digit_val(c: char) -> int {
    c as u32 - '0' as u32
}

/// Value of a sequence of digit characters read in base ten.
pub open spec fn digits_val(s: Seq<char>) -> int
    decreases s.len(),
{
    if s.len() == 0 {
        0
    } else {
        digits_val(s.drop_last()) * 10 + digit_val(s.last())
    }
}

/// The digit character for a value below ten.
pub open spec fn digit_char(d: int) -> char {
    if d == 0 { '0' }
    else if d == 1 { '1' }
    else if d == 2 { '2' }
    else if d == 3 { '3' }
    else if d == 4 { '4' }
    else if d == 5 { '5' }
    else if d == 6 { '6' }
    else if d == 7 { '7' }
    else if d == 8 { '8' }
    else { '9' }
}

/// Decimal representation of `n`, most significant digit first,
/// without leading zeros (`0` is written as one digit).
pub open spec fn dec_rep(n: int) -> Seq<char>
    recommends
        n >= 0,
    decreases n,
        when n >= 0
{
    if n < 10 {
        seq![digit_char(n)]
    } else {
        dec_rep(n / 10).push(digit_char(n % 10))
    }
}

/// The value a sequence of digits denotes, when it is one and it fits.
pub open spec fn parse_u32_seq(s: Seq<char>) -> Option<u32> {
    if s.len() > 0 && all_digits(s) && digits_val(s) <= u32::MAX {
        Some(digits_val(s) as u32)
    } else {
        None
    }
}

pub proof fn lemma_digits_val_nonneg(s: Seq<char>)
    requires
        all_digits(s),
    ensures
        digits_val(s) >= 0,
    decreases s.len(),
{
    if s.len() > 0 {
        assert(all_digits(s.drop_last()));
        lemma_digits_val_nonneg(s.drop_last());
    }
}

/// Appending digits never shrinks the value.
pub proof fn lemma_digits_val_prefix(s: Seq<char>, k: int)
    requires
        all_digits(s),
        0 <= k <= s.len(),
    ensures
        digits_val(s) >= digits_val(s.subrange(0, k)),
    decreases s.len() - k,
{
    if k < s.len() {
        lemma_digits_val_prefix(s, k + 1);
        let t = s.subrange(0, k + 1);
        assert(t.drop_last() =~= s.subrange(0, k));
        assert(all_digits(s.subrange(0, k)));
        lemma_digits_val_nonneg(s.subrange(0, k));
    } else {
        assert(s.subrange(0, k) =~= s);
    }
}

/// The digit characters carry their values.
pub proof fn lemma_digit_char(d: int)
    requires
        0 <= d < 10,
    ensures
        is_digit(digit_char(d)),
        digit_val(digit_char(d)) == d,
{
}

/// The decimal representation is made of digits and denotes its number.
pub proof fn lemma_dec_rep(n: int)
    requires
        n >= 0,
    ensures
        all_digits(dec_rep(n)),
        digits_val(dec_rep(n)) == n,
        dec_rep(n).len() >= 1,
    decreases n,
{
    if n < 10 {
        let s = dec_rep(n);
        lemma_digit_char(n);
        assert(s.len() == 1);
        assert(s.drop_last() =~= Seq::<char>::empty());
        assert(digits_val(s) == digits_val(s.drop_last()) * 10 + digit_val(s.last()));
        assert(digits_val(s.drop_last()) == 0);
        assert(all_digits(s)) by {
            assert(forall|k: int| 0 <= k < s.len() ==> #[trigger] s[k] == digit_char(n));
        }
    } else {
        lemma_dec_rep(n / 10);
        vstd::arithmetic::div_mod::lemma_fundamental_div_mod(n, 10);
        lemma_digit_char(n % 10);
        let s = dec_rep(n);
        let t = dec_rep(n / 10);
        assert(s == t.push(digit_char(n % 10)));
        assert(s.drop_last() =~= t);
        assert(s.last() == digit_char(n % 10));
        assert(digits_val(s) == digits_val(t) * 10 + digit_val(digit_char(n % 10)));
        assert(all_digits(s)) by {
            assert(forall|k: int| 0 <= k < t.len() ==> s[k] == #[trigger] t[k]);
        }
    }
}

/// The one-character string for a digit value.
pub fn digit_str(d: u64) -> (r: &'static str)
    requires
        d < 10,
    ensures
        r@ == seq![digit_char(d as int)],
{
    proof {
        reveal_strlit("0");
        reveal_strlit("1");
        reveal_strlit("2");
        reveal_strlit("3");
        reveal_strlit("4");
        reveal_strlit("5");
        reveal_strlit("6");
        reveal_strlit("7");
        reveal_strlit("8");
        reveal_strlit("9");
        assert("0"@ =~= seq!['0']);
        assert("1"@ =~= seq!['1']);
        assert("2"@ =~= seq!['2']);
        assert("3"@ =~= seq!['3']);
        assert("4"@ =~= seq!['4']);
        assert("5"@ =~= seq!['5']);
        assert("6"@ =~= seq!['6']);
        assert("7"@ =~= seq!['7']);
        assert("8"@ =~= seq!['8']);
        assert("9"@ =~= seq!['9']);
    }
    if d == 0 { "0" }
    else if d == 1 { "1" }
    else if d == 2 { "2" }
    else if d == 3 { "3" }
    else if d == 4 { "4" }
    else if d == 5 { "5" }
    else if d == 6 { "6" }
    else if d == 7 { "7" }
    else if d == 8 { "8" }
    else { "9" }
}

/// `n` written in decimal.
pub fn u64_to_string(n: u64) -> (r: String)
    ensures
        r@ == dec_rep(n as int),
    decreases n,
{
    let d: u64 = n % 10;
    if n < 10 {
        String::from_str(digit_str(d))
    } else {
        let mut s = u64_to_string(n / 10);
        s.append(digit_str(d));
        proof {
            assert(s@ =~= dec_rep((n / 10) as int).push(digit_char(d as int)));
        }
        s
    }
}

/// The digits `v[a..b]` read as a `u32`; exactly `parse_u32_seq`.
pub fn parse_u32_range(v: &Vec<char>, a: usize, b: usize) -> (r: Option<u32>)
    requires
        a <= b <= v@.len(),
    ensures
        r == parse_u32_seq(v@.subrange(a as int, b as int)),
{
    let ghost s = v@.subrange(a as int, b as int);
    if a == b {
        return None;
    }
    let mut acc: u64 = 0;
    let mut i: usize = a;
    while i < b
        invariant
            a <= i <= b <= v@.len(),
            s == v@.subrange(a as int, b as int),
            all_digits(s.subrange(0, i - a)),
            acc == digits_val(s.subrange(0, i - a)),
            acc <= u32::MAX,
        decreases b - i,
    {
        let u: u32 = v[i] as u32;
        proof {
            assert(s[i - a] == v@[i as int]);
        }
        if u < 48 || u > 57 {
            proof {
                assert(!is_digit(s[i - a]));
            }
            return None;
        }
        let d: u64 = (u - 48) as u64;
        let next: u64 = acc * 10 + d;
        proof {
            let t = s.subrange(0, i - a + 1);
            assert(t.drop_last() =~= s.subrange(0, i - a));
            assert(t.last() == s[i - a]);
            assert(all_digits(t));
            assert(next == digits_val(t));
        }
        if next > 0xFFFF_FFFF {
            proof {
                if all_digits(s) {
                    lemma_digits_val_prefix(s, i - a + 1);
                    assert(digits_val(s) > u32::MAX);
                }
            }
            return None;
        }
        acc = next;
        i += 1;
    }
    proof {
        assert(s.subrange(0, b - a) =~= s);
    }
    Some(acc as u32)
}

/// The characters of `s`, as a vector for random access.
pub fn chars_of(s: &str) -> (r: Vec<char>)
    ensures
        r@ == s@,
{
    let n: usize = s.unicode_len();
    let mut r: Vec<char> = Vec::new();
    let mut i: usize = 0;
    while i < n
        invariant
            n == s@.len(),
            i <= n,
            r@ == s@.subrange(0, i as int),
        decreases n - i,
    {
        r.push(s.get_char(i));
        i += 1;
        proof {
            assert(r@ =~= s@.subrange(0, i as int));
        }
    }
    proof {
        assert(r@ =~= s@);
    }
    r
}

/// Does `p` occur in `t` starting exactly at `i`?
pub fn is_match_at(t: &Vec<char>, p: &Vec<char>, i: usize) -> (r: bool)
    requires
        i <= t@.len(),
    ensures
        r == match_at(t@, p@, i as int),
{
    let n: usize = t.len();
    if p.len() > n - i {
        proof {
            assert(!match_at(t@, p@, i as int));
        }
        return false;
    }
    let mut j: usize = 0;
    while j < p.len()
        invariant
            n == t@.len(),
            i + p@.len() <= t@.len(),
            j <= p@.len(),
            forall|k: int| 0 <= k < j ==> t@[i + k] == p@[k],
        decreases p@.len() - j,
    {
        if t[i + j] != p[j] {
            proof {
                assert(t@.subrange(i as int, i + p@.len())[j as int] != p@[j as int]);
            }
            return false;
        }
        j += 1;
    }
    proof {
        assert(t@.subrange(i as int, i + p@.len()) =~= p@);
    }
    true
}

/// First occurrence of `p` in `t` at or after `from`; exactly `find_from`.
pub fn find_sub(t: &Vec<char>, p: &Vec<char>, from: usize) -> (r: Option<usize>)
    requires
        from <= t@.len(),
    ensures
        match r {
            Some(j) => find_from(t@, p@, from as int) == Some(j as int) && j <= t@.len(),
            None => find_from(t@, p@, from as int) is None,
        },
{
    let mut i: usize = from;
    while p.len() <= t.len() - i
        invariant
            from <= i <= t@.len(),
            find_from(t@, p@, from as int) == find_from(t@, p@, i as int),
        decreases t@.len() - i,
    {
        if is_match_at(t, p, i) {
            return Some(i);
        }
        proof {
            if p@.len() == 0 {
                assert(t@.subrange(i as int, i as int) =~= p@);
            }
            assert(find_from(t@, p@, i as int) == find_from(t@, p@, i + 1));
        }
        i += 1;
    }
    None
}

/// A copy of `v[a..b]`.
pub fn copy_range(v: &Vec<char>, a: usize, b: usize) -> (r: Vec<char>)
    requires
        a <= b <= v@.len(),
    ensures
        r@ == v@.subrange(a as int, b as int),
{
    let mut r: Vec<char> = Vec::new();
    let mut i: usize = a;
    while i < b
        invariant
            a <= i <= b <= v@.len(),
            r@ == v@.subrange(a as int, i as int),
        decreases b - i,
    {
        r.push(v[i]);
        i += 1;
        proof {
            assert(r@ =~= v@.subrange(a as int, i as int));
        }
    }
    r
}

/// Appends a copy of every character of `src` to `dst`.
pub fn push_all(dst: &mut Vec<char>, src: &Vec<char>)
    ensures
        final(dst)@ == old(dst)@ + src@,
{
    let mut i: usize = 0;
    while i < src.len()
        invariant
            i <= src@.len(),
            dst@ == old(dst)@ + src@.subrange(0, i as int),
        decreases src@.len() - i,
    {
        dst.push(src[i]);
        i += 1;
        proof {
            assert(dst@ =~= old(dst)@ + src@.subrange(0, i as int));
        }
    }
    proof {
        assert(dst@ =~= old(dst)@ + src@);
    }
}

/// First occurrence of `p` within `v[lo..hi]`, as a position in `v`.
pub fn find_range(v: &Vec<char>, p: &Vec<char>, lo: usize, hi: usize) -> (r: Option<usize>)
    requires
        lo <= hi <= v@.len(),
    ensures
        match r {
            Some(j) => lo <= j <= hi
                && find_from(v@.subrange(lo as int, hi as int), p@, 0) == Some(j - lo),
            None => find_from(v@.subrange(lo as int, hi as int), p@, 0) is None,
        },
{
    let ghost u = v@.subrange(lo as int, hi as int);
    let mut i: usize = lo;
    while p.len() <= hi - i
        invariant
            lo <= i <= hi <= v@.len(),
            u == v@.subrange(lo as int, hi as int),
            find_from(u, p@, 0) == find_from(u, p@, i - lo),
        decreases hi - i,
    {
        proof {
            assert(v@.subrange(i as int, i + p@.len()) =~= u.subrange(i - lo, i - lo + p@.len()));
        }
        if is_match_at(v, p, i) {
            proof {
                assert(match_at(u, p@, i - lo));
            }
            return Some(i);
        }
        proof {
            assert(!match_at(u, p@, i - lo));
            if p@.len() == 0 {
                assert(u.subrange(i - lo, i - lo) =~= p@);
            }
            assert(find_from(u, p@, i - lo) == find_from(u, p@, i - lo + 1));
        }
        i += 1;
    }
    None
}

/// `skip_ws_from` is pinned down by its characteristic properties.
pub proof fn lemma_skip_ws_from_char(s: Seq<char>, i: int, k: int)
    requires
        0 <= i <= k <= s.len(),
        forall|m: int| i <= m < k ==> is_ws(#[trigger] s[m]),
        k < s.len() ==> !is_ws(s[k]),
    ensures
        skip_ws_from(s, i) == k,
    decreases k - i,
{
    if i < k {
        lemma_skip_ws_from_char(s, i + 1, k);
    }
}

/// `rskip_ws_from` is pinned down by its characteristic properties.
pub proof fn lemma_rskip_ws_from_char(s: Seq<char>, k: int, j: int)
    requires
        0 <= k <= j <= s.len(),
        forall|m: int| k <= m < j ==> is_ws(#[trigger] s[m]),
        k > 0 ==> !is_ws(s[k - 1]),
    ensures
        rskip_ws_from(s, j) == k,
    decreases j - k,
{
    if k < j {
        lemma_rskip_ws_from_char(s, k, j - 1);
    }
}

/// Bounds of `v[a..b]` with surrounding whitespace removed; the slice between
/// them is exactly `trim_seq` of the slice between `a` and `b`.
pub fn trim_range(v: &Vec<char>, a: usize, b: usize) -> (r: (usize, usize))
    requires
        a <= b <= v@.len(),
    ensures
        a <= r.0 <= r.1 <= b,
        v@.subrange(r.0 as int, r.1 as int) == trim_seq(v@.subrange(a as int, b as int)),
{
    let ghost t = v@.subrange(a as int, b as int);
    let mut i: usize = a;
    while i < b && is_ws_char(v[i])
        invariant
            a <= i <= b,
            b <= v@.len(),
            t == v@.subrange(a as int, b as int),
            forall|m: int| 0 <= m < i - a ==> is_ws(#[trigger] t[m]),
        decreases b - i,
    {
        i += 1;
    }
    proof {
        lemma_skip_ws_from_char(t, 0, i - a);
    }
    if i == b {
        proof {
            lemma_rskip_ws_from_char(t, 0, t.len() as int);
            assert(trim_seq(t) =~= v@.subrange(b as int, b as int));
        }
        return (b, b);
    }
    let mut j: usize = b;
    while j > i && is_ws_char(v[j - 1])
        invariant
            i < b <= v@.len(),
            i <= j <= b,
            t == v@.subrange(a as int, b as int),
            a <= i,
            !is_ws(t[i - a]),
            forall|m: int| j - a <= m < b - a ==> is_ws(#[trigger] t[m]),
        decreases j,
    {
        j -= 1;
    }
    proof {
        assert(j > i);
        lemma_rskip_ws_from_char(t, j - a, t.len() as int);
        assert(trim_seq(t) =~= v@.subrange(i as int, j as int));
    }
    (i, j)
}

/// Position of the next newline at or after `i`, or the end of the text.
pub open spec fn scan_to_nl(s: Seq<char>, i: int) -> int
    recommends
        0 <= i <= s.len(),
    decreases s.len() - i,
        when 0 <= i <= s.len()
{
    if i < s.len() && s[i] != '\n' {
        scan_to_nl(s, i + 1)
    } else {
        i
    }
}

/// Position of the next newline at or after `i`; exactly `scan_to_nl`.
pub fn scan_nl(v: &Vec<char>, i: usize) -> (r: usize)
    requires
        i <= v@.len(),
    ensures
        r == scan_to_nl(v@, i as int),
        i <= r <= v@.len(),
{
    let mut j: usize = i;
    while j < v.len() && v[j] != '\n'
        invariant
            i <= j <= v@.len(),
            scan_to_nl(v@, i as int) == scan_to_nl(v@, j as int),
        decreases v@.len() - j,
    {
        j += 1;
    }
    j
}

/// The views of a sequence of strings.
pub open spec fn strs_view(s: Seq<String>) -> Seq<Seq<char>> {
    Seq::new(s.len(), |i: int| s[i]@)
}

/// Whether `x` is among the character sequences of `s`.
pub open spec fn seq_contains(s: Seq<Seq<char>>, x: Seq<char>) -> bool {
    exists|i: int| 0 <= i < s.len() && s[i] == x
}

/// Whether two character vectors hold the same characters.
pub fn char_vecs_equal(a: &Vec<char>, b: &Vec<char>) -> (r: bool)
    ensures
        r == (a@ == b@),
{
    if a.len() != b.len() {
        proof {
            if a@ == b@ {
                assert(false);
            }
        }
        return false;
    }
    let mut i: usize = 0;
    while i < a.len()
        invariant
            a@.len() == b@.len(),
            i <= a@.len(),
            forall|k: int| 0 <= k < i ==> a@[k] == b@[k],
        decreases a@.len() - i,
    {
        if a[i] != b[i] {
            proof {
                if a@ == b@ {
                    assert(a@[i as int] == b@[i as int]);
                }
            }
            return false;
        }
        i += 1;
    }
    proof {
        assert(a@ =~= b@);
    }
    true
}

/// Whether some string of `v` holds exactly the characters of `x`.
pub fn contains_string(v: &Vec<String>, x: &str) -> (r: bool)
    ensures
        r == seq_contains(strs_view(v@), x@),
{
    let xc = chars_of(x);
    let mut i: usize = 0;
    while i < v.len()
        invariant
            xc@ == x@,
            i <= v@.len(),
            forall|k: int| 0 <= k < i ==> strs_view(v@)[k] != x@,
        decreases v@.len() - i,
    {
        let ec = chars_of(v[i].as_str());
        if char_vecs_equal(&ec, &xc) {
            proof {
                assert(strs_view(v@)[i as int] == x@);
            }
            return true;
        }
        proof {
            assert(strs_view(v@)[i as int] == v@[i as int]@);
        }
        i += 1;
    }
    proof {
        if seq_contains(strs_view(v@), x@) {
            let i = choose|i: int| 0 <= i < strs_view(v@).len() && strs_view(v@)[i] == x@;
            assert(false);
        }
    }
    false
}

/// End of `s` with every trailing `c` before position `j` removed.
pub open spec fn rskip_char(s: Seq<char>, c: char, j: int) -> int
    recommends
        0 <= j <= s.len(),
    decreases j,
        when 0 <= j <= s.len()
{
    if j > 0 && s[j - 1] == c {
        rskip_char(s, c, j - 1)
    } else {
        j
    }
}

/// End of `v` with every trailing `c` removed; exactly `rskip_char`.
pub fn rskip_char_exec(v: &Vec<char>, c: char, to: usize) -> (r: usize)
    requires
        to <= v@.len(),
    ensures
        r == rskip_char(v@, c, to as int),
        r <= to,
{
    let mut j: usize = to;
    while j > 0 && v[j - 1] == c
        invariant
            j <= to <= v@.len(),
            rskip_char(v@, c, to as int) == rskip_char(v@, c, j as int),
        decreases j,
    {
        j -= 1;
    }
    j
}

/// How many newline characters `s` holds.
pub open spec fn nl_count(s: Seq<char>) -> int
    decreases s.len(),
{
    if s.len() == 0 {
        0
    } else {
        nl_count(s.drop_last()) + if s.last() == '\n' {
            1int
        } else {
            0int
        }
    }
}

/// How many lines `s` has: a trailing newline ends the last line instead of
/// opening a new one, and empty text has none.
pub open spec fn lines_count(s: Seq<char>) -> int {
    if s.len() == 0 {
        0
    } else {
        1 + nl_count(s.drop_last())
    }
}

/// `s` with every repetition of a leading `"# "` removed.
pub open spec fn strip_hash_prefixes(s: Seq<char>) -> Seq<char>
    decreases s.len(),
{
    if s.len() >= 2 && s[0] == '#' && s[1] == ' ' {
        strip_hash_prefixes(s.subrange(2, s.len() as int))
    } else {
        s
    }
}

/// Is `c` trimmed as whitespace?
pub fn is_ws_char(c: char) -> (r: bool)
    ensures
        r == is_ws(c),
{
    c == '\t' || c == '\n' || c == '\u{0B}' || c == '\u{0C}' || c == '\r' || c == ' '
        || c == '\u{85}' || c == '\u{A0}' || c == '\u{1680}'
        || ('\u{2000}' <= c && c <= '\u{200A}')
        || c == '\u{2028}' || c == '\u{2029}' || c == '\u{202F}' || c == '\u{205F}'
        || c == '\u{3000}'
}

/// First non-whitespace position in `v` at or after `i`.
pub fn skip_ws(v: &Vec<char>, from: usize) -> (r: usize)
    requires
        from <= v@.len(),
    ensures
        r == skip_ws_from(v@, from as int),
        from <= r <= v@.len(),
{
    let mut i: usize = from;
    while i < v.len() && is_ws_char(v[i])
        invariant
            from <= i <= v@.len(),
            skip_ws_from(v@, from as int) == skip_ws_from(v@, i as int),
        decreases v@.len() - i,
    {
        i += 1;
    }
    i
}

} // verus!

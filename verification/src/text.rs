//! Character-sequence helpers with exact specifications: the handful of
//! `str` operations (trimming, splitting, searching, replacing) that the
//! shell's parsers rely on, stated over `Seq<char>`.
use vstd::prelude::*;

verus! {

/// Unicode `White_Space`, the property behind `char::is_whitespace`.
pub open spec fn is_ws(c: char) -> bool {
    let u = c as u32;
    ||| (9 <= u && u <= 13)
    ||| u == 32
    ||| u == 0x85
    ||| u == 0xa0
    ||| u == 0x1680
    ||| (0x2000 <= u && u <= 0x200a)
    ||| u == 0x2028
    ||| u == 0x2029
    ||| u == 0x202f
    ||| u == 0x205f
    ||| u == 0x3000
}

pub fn char_is_ws(c: char) -> (b: bool)
    ensures
        b == is_ws(c),
{
    let u = c as u32;
    (9 <= u && u <= 13) || u == 32 || u == 0x85 || u == 0xa0 || u == 0x1680 || (0x2000 <= u && u
        <= 0x200a) || u == 0x2028 || u == 0x2029 || u == 0x202f || u == 0x205f || u == 0x3000
}

/// Leading whitespace removed.
pub open spec fn trim_start(s: Seq<char>) -> Seq<char>
    decreases s.len(),
{
    if s.len() > 0 && is_ws(s[0]) {
        trim_start(s.drop_first())
    } else {
        s
    }
}

/// Trailing whitespace removed.
pub open spec fn trim_end(s: Seq<char>) -> Seq<char>
    decreases s.len(),
{
    if s.len() > 0 && is_ws(s.last()) {
        trim_end(s.drop_last())
    } else {
        s
    }
}

/// What `str::trim` returns.
pub open spec fn trim(s: Seq<char>) -> Seq<char> {
    trim_end(trim_start(s))
}

/// The characters of a string slice.
pub fn to_chars(s: &str) -> (v: Vec<char>)
    ensures
        v@ == s@,
{
    let n = s.unicode_len();
    let mut v: Vec<char> = Vec::new();
    let mut i: usize = 0;
    while i < n
        invariant
            n == s@.len(),
            i <= n,
            v@ == s@.subrange(0, i as int),
        decreases n - i,
    {
        let c = s.get_char(i);
        v.push(c);
        i = i + 1;
        assert(v@ =~= s@.subrange(0, i as int));
    }
    assert(v@ =~= s@);
    v
}

/// Collects characters into an owned string (`String: FromIterator<char>`).
#[verifier::external_body]
pub fn from_chars(v: &[char]) -> (s: String)
    ensures
        s@ == v@,
{
    v.iter().collect()
}

/// `s[lo..hi]` where every index in `[lo, hi)` is kept.
pub fn slice_to_vec(v: &[char], lo: usize, hi: usize) -> (r: Vec<char>)
    requires
        lo <= hi <= v@.len(),
    ensures
        r@ == v@.subrange(lo as int, hi as int),
{
    let mut r: Vec<char> = Vec::new();
    let mut i = lo;
    while i < hi
        invariant
            lo <= i <= hi,
            hi <= v@.len(),
            r@ == v@.subrange(lo as int, i as int),
        decreases hi - i,
    {
        r.push(v[i]);
        i = i + 1;
        assert(r@ =~= v@.subrange(lo as int, i as int));
    }
    assert(r@ =~= v@.subrange(lo as int, hi as int));
    r
}

/// `str::trim` over characters.
pub fn trim_chars(v: &[char]) -> (r: Vec<char>)
    ensures
        r@ == trim(v@),
{
    let n = v.len();
    let mut lo: usize = 0;
    assert(v@.subrange(0, n as int) =~= v@);
    while lo < n && char_is_ws(v[lo])
        invariant
            lo <= n,
            n == v@.len(),
            trim_start(v@) == trim_start(v@.subrange(lo as int, n as int)),
        decreases n - lo,
    {
        assert(v@.subrange(lo as int, n as int).drop_first() =~= v@.subrange(lo + 1, n as int));
        lo = lo + 1;
    }
    assert(trim_start(v@) == v@.subrange(lo as int, n as int));
    let mut hi: usize = n;
    while hi > lo && char_is_ws(v[hi - 1])
        invariant
            lo <= hi <= n,
            n == v@.len(),
            trim_start(v@) == v@.subrange(lo as int, n as int),
            trim(v@) == trim_end(v@.subrange(lo as int, hi as int)),
        decreases hi,
    {
        assert(v@.subrange(lo as int, hi as int).drop_last() =~= v@.subrange(lo as int, hi - 1));
        hi = hi - 1;
    }
    slice_to_vec(v, lo, hi)
}


/// `s` begins with `p`.
pub open spec fn has_prefix(s: Seq<char>, p: Seq<char>) -> bool {
    p.len() <= s.len() && s.subrange(0, p.len() as int) == p
}

/// `s` ends with `p`.
pub open spec fn has_suffix(s: Seq<char>, p: Seq<char>) -> bool {
    p.len() <= s.len() && s.subrange(s.len() - p.len(), s.len() as int) == p
}

pub fn starts_with(v: &[char], p: &[char]) -> (b: bool)
    ensures
        b == has_prefix(v@, p@),
{
    if p.len() > v.len() {
        return false;
    }
    let mut i: usize = 0;
    while i < p.len()
        invariant
            p@.len() <= v@.len(),
            i <= p@.len(),
            forall|j: int| 0 <= j < i ==> v@[j] == p@[j],
        decreases p.len() - i,
    {
        if v[i] != p[i] {
            assert(v@.subrange(0, p@.len() as int)[i as int] != p@[i as int]);
            return false;
        }
        i = i + 1;
    }
    assert(v@.subrange(0, p@.len() as int) =~= p@);
    true
}

/// `p` occurs in `s` at position `i`.
pub open spec fn occurs_at(s: Seq<char>, p: Seq<char>, i: int) -> bool {
    0 <= i && i + p.len() <= s.len() && s.subrange(i, i + p.len()) == p
}

/// What `str::contains` with a string pattern answers.
pub open spec fn contains_seq(s: Seq<char>, p: Seq<char>) -> bool {
    exists|i: int| occurs_at(s, p, i)
}

/// Whether `p` occurs in `v` at position `i`.
pub fn matches_at(v: &[char], p: &[char], i: usize) -> (b: bool)
    requires
        i <= v@.len(),
    ensures
        b == occurs_at(v@, p@, i as int),
{
    if p.len() > v.len() - i {
        return false;
    }
    let mut k: usize = 0;
    while k < p.len()
        invariant
            i + p@.len() <= v@.len(),
            i + p.len() <= v.len(),
            k <= p@.len(),
            forall|j: int| 0 <= j < k ==> v@[i + j] == p@[j],
        decreases p.len() - k,
    {
        if v[i + k] != p[k] {
            assert(v@.subrange(i as int, i + p@.len())[k as int] != p@[k as int]);
            return false;
        }
        k = k + 1;
    }
    assert(v@.subrange(i as int, i + p@.len()) =~= p@);
    true
}

pub fn contains(v: &[char], p: &[char]) -> (b: bool)
    ensures
        b == contains_seq(v@, p@),
{
    let mut i: usize = 0;
    loop
        invariant
            i <= v@.len(),
            forall|j: int| 0 <= j < i ==> !occurs_at(v@, p@, j),
        decreases v.len() - i,
    {
        if matches_at(v, p, i) {
            return true;
        }
        if i == v.len() {
            assert forall|j: int| !occurs_at(v@, p@, j) by {
                if 0 <= j && j + p@.len() <= v@.len() {
                    assert(j <= i);
                }
            }
            return false;
        }
        i = i + 1;
    }
}

pub fn contains_char(v: &[char], c: char) -> (b: bool)
    ensures
        b == v@.contains(c),
{
    let mut i: usize = 0;
    while i < v.len()
        invariant
            i <= v@.len(),
            forall|j: int| 0 <= j < i ==> v@[j] != c,
        decreases v.len() - i,
    {
        if v[i] == c {
            return true;
        }
        i = i + 1;
    }
    false
}

/// Position of the first `c` in `s`.
pub open spec fn find_char(s: Seq<char>, c: char) -> Option<int>
    decreases s.len(),
{
    if s.len() == 0 {
        None
    } else if s[0] == c {
        Some(0)
    } else {
        match find_char(s.drop_first(), c) {
            Some(i) => Some(i + 1),
            None => None,
        }
    }
}

/// Position of the last `c` in `s`.
pub open spec fn rfind_char(s: Seq<char>, c: char) -> Option<int>
    decreases s.len(),
{
    if s.len() == 0 {
        None
    } else if s.last() == c {
        Some(s.len() - 1)
    } else {
        rfind_char(s.drop_last(), c)
    }
}

/// Start of the last occurrence of `p` in `s`.
pub open spec fn rfind_seq(s: Seq<char>, p: Seq<char>) -> Option<int>
    decreases s.len(),
{
    if s.len() < p.len() {
        None
    } else if has_suffix(s, p) {
        Some(s.len() - p.len())
    } else if s.len() == 0 {
        None
    } else {
        rfind_seq(s.drop_last(), p)
    }
}

pub proof fn lemma_find_char_bounds(s: Seq<char>, c: char)
    ensures
        find_char(s, c) matches Some(i) ==> 0 <= i < s.len() && s[i] == c && forall|j: int|
            0 <= j < i ==> s[j] != c,
        find_char(s, c) is None ==> !s.contains(c),
    decreases s.len(),
{
    if s.len() > 0 {
        lemma_find_char_bounds(s.drop_first(), c);
        if find_char(s, c) is None {
            assert forall|j: int| 0 <= j < s.len() implies s[j] != c by {
                if j > 0 {
                    assert(s.drop_first()[j - 1] == s[j]);
                }
            }
        }
        if let Some(i) = find_char(s, c) {
            if i > 0 {
                assert forall|j: int| 0 <= j < i implies s[j] != c by {
                    if j > 0 {
                        assert(s.drop_first()[j - 1] == s[j]);
                    }
                }
            }
        }
    }
}

pub proof fn lemma_rfind_char_bounds(s: Seq<char>, c: char)
    ensures
        rfind_char(s, c) matches Some(i) ==> 0 <= i < s.len() && s[i] == c && forall|j: int|
            i < j < s.len() ==> s[j] != c,
        rfind_char(s, c) is None ==> !s.contains(c),
    decreases s.len(),
{
    if s.len() > 0 {
        lemma_rfind_char_bounds(s.drop_last(), c);
        if s.last() != c {
            if let Some(i) = rfind_char(s, c) {
                assert forall|j: int| i < j < s.len() implies s[j] != c by {
                    if j < s.len() - 1 {
                        assert(s.drop_last()[j] == s[j]);
                    }
                }
                assert(s.drop_last()[i] == s[i]);
            }
        }
        if rfind_char(s, c) is None {
            assert forall|j: int| 0 <= j < s.len() implies s[j] != c by {
                if j < s.len() - 1 {
                    assert(s.drop_last()[j] == s[j]);
                }
            }
        }
    }
}

/// `str::find` with a `char` pattern.
pub fn find(v: &[char], c: char) -> (r: Option<usize>)
    ensures
        r matches Some(i) ==> find_char(v@, c) == Some(i as int) && i < v.len(),
        r is None ==> find_char(v@, c) is None,
{
    let n = v.len();
    let mut i: usize = 0;
    assert(v@.subrange(0, n as int) =~= v@);
    while i < n
        invariant
            i <= n,
            n == v@.len(),
            find_char(v@, c) == (match find_char(v@.subrange(i as int, n as int), c) {
                Some(k) => Some(k + i),
                None => None,
            }),
        decreases n - i,
    {
        assert(v@.subrange(i as int, n as int)[0] == v@[i as int]);
        if v[i] == c {
            return Some(i);
        }
        assert(v@.subrange(i as int, n as int).drop_first() =~= v@.subrange(i + 1, n as int));
        i = i + 1;
    }
    None
}

/// `str::rfind` with a `char` pattern.
pub fn rfind(v: &[char], c: char) -> (r: Option<usize>)
    ensures
        r matches Some(i) ==> rfind_char(v@, c) == Some(i as int) && i < v.len(),
        r is None ==> rfind_char(v@, c) is None,
{
    let mut hi: usize = v.len();
    assert(v@.subrange(0, hi as int) =~= v@);
    while hi > 0
        invariant
            hi <= v@.len(),
            rfind_char(v@, c) == rfind_char(v@.subrange(0, hi as int), c),
        decreases hi,
    {
        if v[hi - 1] == c {
            return Some(hi - 1);
        }
        assert(v@.subrange(0, hi as int).drop_last() =~= v@.subrange(0, hi - 1));
        hi = hi - 1;
    }
    None
}

/// Start of the last occurrence of `p`.
pub fn rfind_pat(v: &[char], p: &[char]) -> (r: Option<usize>)
    ensures
        r matches Some(i) ==> rfind_seq(v@, p@) == Some(i as int) && i + p.len() <= v.len(),
        r is None ==> rfind_seq(v@, p@) is None,
{
    let mut hi: usize = v.len();
    assert(v@.subrange(0, hi as int) =~= v@);
    while hi >= p.len()
        invariant
            hi <= v@.len(),
            rfind_seq(v@, p@) == rfind_seq(v@.subrange(0, hi as int), p@),
        decreases hi,
    {
        let start = hi - p.len();
        if matches_at(v, p, start) {
            assert(v@.subrange(0, hi as int).subrange(start as int, hi as int) =~= v@.subrange(
                start as int,
                hi as int,
            ));
            return Some(start);
        }
        assert(v@.subrange(0, hi as int).subrange(start as int, hi as int) =~= v@.subrange(
            start as int,
            hi as int,
        ));
        if hi == 0 {
            return None;
        }
        assert(v@.subrange(0, hi as int).drop_last() =~= v@.subrange(0, hi - 1));
        hi = hi - 1;
    }
    None
}


/// All trailing occurrences of `p` removed (`str::trim_end_matches`).
pub open spec fn trim_end_matches(s: Seq<char>, p: Seq<char>) -> Seq<char>
    decreases s.len(),
{
    if p.len() > 0 && has_suffix(s, p) {
        trim_end_matches(s.subrange(0, s.len() - p.len()), p)
    } else {
        s
    }
}

/// All leading occurrences of `p` removed (`str::trim_start_matches`).
pub open spec fn trim_start_matches(s: Seq<char>, p: Seq<char>) -> Seq<char>
    decreases s.len(),
{
    if p.len() > 0 && has_prefix(s, p) {
        trim_start_matches(s.subrange(p.len() as int, s.len() as int), p)
    } else {
        s
    }
}

pub fn trim_end_matches_chars(v: &[char], p: &[char]) -> (r: Vec<char>)
    ensures
        r@ == trim_end_matches(v@, p@),
{
    let mut hi: usize = v.len();
    assert(v@.subrange(0, hi as int) =~= v@);
    if p.len() == 0 {
        return slice_to_vec(v, 0, hi);
    }
    loop
        invariant
            hi <= v@.len(),
            p@.len() > 0,
            trim_end_matches(v@, p@) == trim_end_matches(v@.subrange(0, hi as int), p@),
        ensures
            hi <= v@.len(),
            trim_end_matches(v@, p@) == v@.subrange(0, hi as int),
        decreases hi,
    {
        if hi < p.len() {
            assert(!has_suffix(v@.subrange(0, hi as int), p@));
            break;
        }
        let start = hi - p.len();
        let m = matches_at(v, p, start);
        assert(v@.subrange(0, hi as int).subrange(start as int, hi as int) =~= v@.subrange(
            start as int,
            hi as int,
        ));
        if !m {
            assert(!has_suffix(v@.subrange(0, hi as int), p@));
            break;
        }
        assert(v@.subrange(0, hi as int).subrange(0, start as int) =~= v@.subrange(
            0,
            start as int,
        ));
        hi = start;
    }
    slice_to_vec(v, 0, hi)
}

pub fn trim_start_matches_chars(v: &[char], p: &[char]) -> (r: Vec<char>)
    ensures
        r@ == trim_start_matches(v@, p@),
{
    let n = v.len();
    let mut lo: usize = 0;
    assert(v@.subrange(0, n as int) =~= v@);
    if p.len() == 0 {
        return slice_to_vec(v, 0, n);
    }
    loop
        invariant
            lo <= n,
            n == v@.len(),
            p@.len() > 0,
            trim_start_matches(v@, p@) == trim_start_matches(v@.subrange(lo as int, n as int), p@),
        ensures
            lo <= n,
            trim_start_matches(v@, p@) == v@.subrange(lo as int, n as int),
        decreases n - lo,
    {
        if n - lo < p.len() {
            assert(!has_prefix(v@.subrange(lo as int, n as int), p@));
            break;
        }
        let m = matches_at(v, p, lo);
        assert(v@.subrange(lo as int, n as int).subrange(0, p@.len() as int) =~= v@.subrange(
            lo as int,
            lo + p@.len(),
        ));
        if !m {
            assert(!has_prefix(v@.subrange(lo as int, n as int), p@));
            break;
        }
        assert(v@.subrange(lo as int, n as int).subrange(p@.len() as int, n - lo) =~= v@.subrange(
            lo + p@.len(),
            n as int,
        ));
        lo = lo + p.len();
    }
    slice_to_vec(v, lo, n)
}

/// Every `c` replaced by `rep` (`str::replace` with a `char` pattern).
pub open spec fn replace_char(s: Seq<char>, c: char, rep: Seq<char>) -> Seq<char>
    decreases s.len(),
{
    if s.len() == 0 {
        s
    } else {
        replace_char(s.drop_last(), c, rep) + (if s.last() == c {
            rep
        } else {
            seq![s.last()]
        })
    }
}

/// Appends all of `s` to `v`.
pub fn push_all(v: &mut Vec<char>, s: &[char])
    ensures
        final(v)@ == old(v)@ + s@,
{
    let mut i: usize = 0;
    while i < s.len()
        invariant
            i <= s@.len(),
            v@ == old(v)@ + s@.subrange(0, i as int),
        decreases s.len() - i,
    {
        v.push(s[i]);
        i = i + 1;
        assert(v@ =~= old(v)@ + s@.subrange(0, i as int));
    }
    assert(s@.subrange(0, s@.len() as int) =~= s@);
}

pub fn replace_chars(v: &[char], c: char, rep: &[char]) -> (r: Vec<char>)
    ensures
        r@ == replace_char(v@, c, rep@),
{
    let mut r: Vec<char> = Vec::new();
    let mut i: usize = 0;
    while i < v.len()
        invariant
            i <= v@.len(),
            r@ == replace_char(v@.subrange(0, i as int), c, rep@),
        decreases v.len() - i,
    {
        assert(v@.subrange(0, i + 1).drop_last() =~= v@.subrange(0, i as int));
        if v[i] == c {
            push_all(&mut r, rep);
        } else {
            r.push(v[i]);
        }
        i = i + 1;
    }
    assert(v@.subrange(0, v@.len() as int) =~= v@);
    r
}

/// UTF-8 width of a character (`char::len_utf8`).
pub open spec fn char_width(c: char) -> nat {
    if (c as u32) < 0x80 {
        1
    } else if (c as u32) < 0x800 {
        2
    } else if (c as u32) < 0x10000 {
        3
    } else {
        4
    }
}

/// UTF-8 length of a character sequence (`str::len`).
pub open spec fn byte_len(s: Seq<char>) -> nat
    decreases s.len(),
{
    if s.len() == 0 {
        0
    } else {
        byte_len(s.drop_last()) + char_width(s.last())
    }
}

/// Whether the UTF-8 length of `v` exceeds `limit`.
pub fn byte_len_exceeds(v: &[char], limit: usize) -> (b: bool)
    ensures
        b == (byte_len(v@) > limit),
{
    let mut total: usize = 0;
    let mut i: usize = 0;
    while i < v.len()
        invariant
            i <= v@.len(),
            total == byte_len(v@.subrange(0, i as int)),
            total <= limit,
        decreases v.len() - i,
    {
        assert(v@.subrange(0, i + 1).drop_last() =~= v@.subrange(0, i as int));
        let c = v[i];
        let u = c as u32;
        let w: usize = if u < 0x80 {
            1
        } else if u < 0x800 {
            2
        } else if u < 0x10000 {
            3
        } else {
            4
        };
        if w > limit - total {
            proof {
                lemma_byte_len_prefix_mono(v@, i + 1);
            }
            return true;
        }
        total = total + w;
        i = i + 1;
    }
    assert(v@.subrange(0, v@.len() as int) =~= v@);
    false
}

/// Byte length never shrinks as a prefix grows.
pub proof fn lemma_byte_len_prefix_mono(s: Seq<char>, k: int)
    requires
        0 <= k <= s.len(),
    ensures
        byte_len(s.subrange(0, k)) <= byte_len(s),
    decreases s.len() - k,
{
    if k < s.len() {
        lemma_byte_len_prefix_mono(s, k + 1);
        assert(s.subrange(0, k + 1).drop_last() =~= s.subrange(0, k));
    } else {
        assert(s.subrange(0, k) =~= s);
    }
}


/// An ASCII decimal digit (`char::is_ascii_digit`).
pub open spec fn is_digit(c: char) -> bool {
    '0' <= c && c <= '9'
}

pub open spec fn digit_val(c: char) -> nat {
    ((c as int) - 48) as nat
}

/// The decimal value of a digit string.
pub open spec fn digits_value(s: Seq<char>) -> nat
    decreases s.len(),
{
    if s.len() == 0 {
        0
    } else {
        digits_value(s.drop_last()) * 10 + digit_val(s.last())
    }
}

pub open spec fn all_digits(s: Seq<char>) -> bool {
    forall|i: int| 0 <= i < s.len() ==> is_digit(#[trigger] s[i])
}

/// The digits `parse::<uN>` reads: one leading `+` is allowed before them.
pub open spec fn unsigned_digits(s: Seq<char>) -> Seq<char> {
    if s.len() > 1 && s[0] == '+' {
        s.drop_first()
    } else {
        s
    }
}

/// What `str::parse` gives for an unsigned integer type whose maximum is `max`.
pub open spec fn parse_unsigned(s: Seq<char>, max: nat) -> Option<nat> {
    let d = unsigned_digits(s);
    if s.len() == 0 || !all_digits(d) {
        None
    } else if digits_value(d) <= max {
        Some(digits_value(d))
    } else {
        None
    }
}

proof fn lemma_value_step(acc: nat, dv: nat, max: nat)
    requires
        dv <= 9,
        dv <= max,
    ensures
        acc > (max - dv) / 10 ==> acc * 10 + dv > max,
        acc <= (max - dv) / 10 ==> acc * 10 + dv <= max,
{
    assert(acc > (max - dv) / 10 ==> acc * 10 + dv > max) by (nonlinear_arith)
        requires
            dv <= max,
    ;
    assert(acc <= (max - dv) / 10 ==> acc * 10 + dv <= max) by (nonlinear_arith)
        requires
            dv <= max,
    ;
}

/// `str::parse` for an unsigned integer type whose maximum is `max`.
pub fn parse_unsigned_chars(v: &[char], max: u64) -> (r: Option<u64>)
    requires
        max >= 9,
    ensures
        r matches Some(n) ==> parse_unsigned(v@, max as nat) == Some(n as nat),
        r is None ==> parse_unsigned(v@, max as nat) is None,
{
    let n = v.len();
    if n == 0 {
        return None;
    }
    let start: usize = if n > 1 && v[0] == '+' {
        1
    } else {
        0
    };
    let ghost d = unsigned_digits(v@);
    assert(d =~= v@.subrange(start as int, n as int));
    let mut acc: u64 = 0;
    let mut over = false;
    let mut i = start;
    while i < n
        invariant
            start <= i <= n,
            n == v@.len(),
            d == v@.subrange(start as int, n as int),
            d == unsigned_digits(v@),
            max >= 9,
            all_digits(v@.subrange(start as int, i as int)),
            !over ==> acc == digits_value(v@.subrange(start as int, i as int)),
            !over ==> acc <= max,
            over ==> digits_value(v@.subrange(start as int, i as int)) > max,
        decreases n - i,
    {
        let c = v[i];
        if !(c >= '0' && c <= '9') {
            assert(d[i - start] == c);
            assert(!is_digit(d[i - start]));
            return None;
        }
        let ghost pre = v@.subrange(start as int, i as int);
        assert(v@.subrange(start as int, i + 1).drop_last() =~= pre);
        let dv: u64 = (c as u32 - '0' as u32) as u64;
        assert(dv == digit_val(c));
        if !over {
            proof {
                lemma_value_step(acc as nat, dv as nat, max as nat);
            }
            if acc > (max - dv) / 10 {
                over = true;
            } else {
                acc = acc * 10 + dv;
            }
        } else {
            assert(digits_value(pre) * 10 + dv >= digits_value(pre)) by (nonlinear_arith);
        }
        i = i + 1;
        assert forall|j: int| 0 <= j < v@.subrange(start as int, i as int).len() implies is_digit(
            #[trigger] v@.subrange(start as int, i as int)[j],
        ) by {
            if j < i - 1 - start {
                assert(v@.subrange(start as int, i as int)[j] == pre[j]);
            }
        }
    }
    if over {
        None
    } else {
        Some(acc)
    }
}

/// The character of a decimal digit.
pub open spec fn digit_char(d: nat) -> char {
    ((d + 48) as u32) as char
}

/// Decimal rendering of a natural number (`to_string` on an integer).
pub open spec fn decimal(n: nat) -> Seq<char>
    decreases n,
{
    if n < 10 {
        seq![digit_char(n)]
    } else {
        decimal(n / 10).push(digit_char(n % 10))
    }
}

fn digit_to_char(d: u64) -> (c: char)
    requires
        d < 10,
    ensures
        c == digit_char(d as nat),
{
    if d == 0 {
        '0'
    } else if d == 1 {
        '1'
    } else if d == 2 {
        '2'
    } else if d == 3 {
        '3'
    } else if d == 4 {
        '4'
    } else if d == 5 {
        '5'
    } else if d == 6 {
        '6'
    } else if d == 7 {
        '7'
    } else if d == 8 {
        '8'
    } else {
        '9'
    }
}

/// Appends the decimal rendering of `n`.
pub fn push_decimal(out: &mut Vec<char>, n: u64)
    ensures
        final(out)@ == old(out)@ + decimal(n as nat),
    decreases n,
{
    if n >= 10 {
        push_decimal(out, n / 10);
    }
    let c = digit_to_char(n % 10);
    out.push(c);
    proof {
        if n >= 10 {
            assert(final(out)@ =~= old(out)@ + decimal(n as nat));
        } else {
            assert(final(out)@ =~= old(out)@ + decimal(n as nat));
        }
    }
}


/// Decimal rendering of a signed integer.
pub open spec fn signed_decimal(n: int) -> Seq<char> {
    if n < 0 {
        seq!['-'] + decimal((-n) as nat)
    } else {
        decimal(n as nat)
    }
}

/// The `Debug` rendering of an optional exit code (`Some(1)`, `None`).
pub open spec fn debug_code(code: Option<i32>) -> Seq<char> {
    match code {
        Some(n) => "Some("@ + signed_decimal(n as int) + ")"@,
        None => "None"@,
    }
}

/// Appends `format!("{code:?}")` of an exit status code.
pub fn push_exit_code(out: &mut Vec<char>, code: Option<i32>)
    ensures
        final(out)@ == old(out)@ + debug_code(code),
{
    match code {
        Some(n) => {
            let open = to_chars("Some(");
            push_all(out, &open);
            if n < 0 {
                out.push('-');
                let m: i64 = n as i64;
                push_decimal(out, (-m) as u64);
            } else {
                push_decimal(out, n as u64);
            }
            let close = to_chars(")");
            push_all(out, &close);
            assert(final(out)@ =~= old(out)@ + debug_code(code));
        },
        None => {
            let none = to_chars("None");
            push_all(out, &none);
        },
    }
}

/// `find_char` on the suffix starting at `start`, as a position in the whole.
pub fn find_from(v: &[char], c: char, start: usize) -> (r: Option<usize>)
    requires
        start <= v@.len(),
    ensures
        r matches Some(i) ==> find_char(v@.subrange(start as int, v@.len() as int), c) == Some(
            i - start,
        ) && start <= i < v@.len(),
        r is None ==> find_char(v@.subrange(start as int, v@.len() as int), c) is None,
{
    let n = v.len();
    let mut i: usize = start;
    let ghost whole = v@.subrange(start as int, n as int);
    while i < n
        invariant
            start <= i <= n,
            n == v@.len(),
            whole == v@.subrange(start as int, n as int),
            find_char(whole, c) == (match find_char(v@.subrange(i as int, n as int), c) {
                Some(k) => Some(k + (i - start)),
                None => None,
            }),
        decreases n - i,
    {
        assert(v@.subrange(i as int, n as int)[0] == v@[i as int]);
        if v[i] == c {
            return Some(i);
        }
        assert(v@.subrange(i as int, n as int).drop_first() =~= v@.subrange(i + 1, n as int));
        i = i + 1;
    }
    None
}

/// The pieces of `s` between occurrences of `c` (`str::split` with a `char`).
pub open spec fn split_char(s: Seq<char>, c: char) -> Seq<Seq<char>>
    decreases s.len(),
{
    match find_char(s, c) {
        None => seq![s],
        Some(i) => {
            proof {
                lemma_find_char_bounds(s, c);
            }
            seq![s.subrange(0, i)] + split_char(s.subrange(i + 1, s.len() as int), c)
        },
    }
}

/// The pieces of `v` between occurrences of `c`.
pub fn split_chars(v: &[char], c: char) -> (r: Vec<Vec<char>>)
    ensures
        r@.len() == split_char(v@, c).len(),
        forall|j: int| 0 <= j < r@.len() ==> #[trigger] r@[j]@ == split_char(v@, c)[j],
{
    let n = v.len();
    let mut r: Vec<Vec<char>> = Vec::new();
    let mut start: usize = 0;
    let ghost done: Seq<Seq<char>> = Seq::empty();
    assert(v@.subrange(0, n as int) =~= v@);
    loop
        invariant
            start <= n,
            n == v@.len(),
            r@.len() == done.len(),
            forall|j: int| 0 <= j < r@.len() ==> #[trigger] r@[j]@ == done[j],
            split_char(v@, c) == done + split_char(v@.subrange(start as int, n as int), c),
        decreases n - start,
    {
        let ghost rest = v@.subrange(start as int, n as int);
        match find_from(v, c, start) {
            None => {
                let piece = slice_to_vec(v, start, n);
                r.push(piece);
                proof {
                    done = done.push(rest);
                    assert(split_char(rest, c) =~= seq![rest]);
                    assert(split_char(v@, c) =~= done);
                }
                return r;
            },
            Some(i) => {
                let piece = slice_to_vec(v, start, i);
                r.push(piece);
                proof {
                    lemma_find_char_bounds(rest, c);
                    assert(rest.subrange(0, i - start) =~= v@.subrange(start as int, i as int));
                    assert(rest.subrange(i - start + 1, rest.len() as int) =~= v@.subrange(
                        i + 1,
                        n as int,
                    ));
                    done = done.push(v@.subrange(start as int, i as int));
                    assert(split_char(v@, c) =~= done + split_char(
                        v@.subrange(i + 1, n as int),
                        c,
                    ));
                }
                start = i + 1;
            },
        }
    }
}


/// Character-wise equality.
pub fn chars_eq(a: &[char], b: &[char]) -> (r: bool)
    ensures
        r == (a@ == b@),
{
    if a.len() != b.len() {
        return false;
    }
    let mut i: usize = 0;
    while i < a.len()
        invariant
            a@.len() == b@.len(),
            i <= a@.len(),
            forall|j: int| 0 <= j < i ==> a@[j] == b@[j],
        decreases a.len() - i,
    {
        if a[i] != b[i] {
            return false;
        }
        i = i + 1;
    }
    assert(a@ =~= b@);
    true
}

/// Whether a string slice holds exactly the characters of `lit`.
pub fn str_is(s: &str, lit: &str) -> (r: bool)
    ensures
        r == (s@ == lit@),
{
    let a = to_chars(s);
    let b = to_chars(lit);
    chars_eq(&a, &b)
}


/// The elements of `s` from position `i` on.
pub open spec fn suffix<A>(s: Seq<A>, i: usize) -> Seq<A> {
    s.subrange(i as int, s.len() as int)
}

/// The first `i` elements of `s`.
pub open spec fn prefix<A>(s: Seq<A>, i: usize) -> Seq<A> {
    s.subrange(0, i as int)
}

/// The element of `s` at position `i`.
pub open spec fn item<A>(s: Seq<A>, i: usize) -> A {
    s[i as int]
}

pub proof fn lemma_suffix_next<A>(s: Seq<A>, i: usize)
    requires
        i < s.len(),
        i < usize::MAX,
    ensures
        suffix(s, i).drop_first() == suffix(s, (i + 1) as usize),
        suffix(s, i)[0] == item(s, i),
        suffix(s, i).len() > 0,
{
    assert(suffix(s, i).drop_first() =~= suffix(s, (i + 1) as usize));
}

pub proof fn lemma_suffix_zero<A>(s: Seq<A>)
    ensures
        suffix(s, 0) == s,
{
    assert(suffix(s, 0) =~= s);
}

pub proof fn lemma_prefix_next<A>(s: Seq<A>, i: usize)
    requires
        i < s.len(),
        i < usize::MAX,
    ensures
        prefix(s, (i + 1) as usize).drop_last() == prefix(s, i),
        prefix(s, (i + 1) as usize).last() == item(s, i),
        prefix(s, (i + 1) as usize).len() > 0,
{
    assert(prefix(s, (i + 1) as usize).drop_last() =~= prefix(s, i));
}

pub proof fn lemma_prefix_full<A>(s: Seq<A>, n: usize)
    requires
        n == s.len(),
    ensures
        prefix(s, n) == s,
{
    assert(prefix(s, n) =~= s);
}


/// Owned character vectors read as sequences.
pub open spec fn opt_seq(o: Option<Vec<char>>) -> Option<Seq<char>> {
    match o {
        Some(v) => Some(v@),
        None => None,
    }
}

/// What follows the last `c` (all of `s` when there is none); the first
/// item of `str::rsplit(c)`.
pub open spec fn after_last(s: Seq<char>, c: char) -> Seq<char> {
    match rfind_char(s, c) {
        Some(i) => s.subrange(i + 1, s.len() as int),
        None => s,
    }
}

/// What follows the last occurrence of `p` (all of `s` when there is none).
pub open spec fn after_last_seq(s: Seq<char>, p: Seq<char>) -> Seq<char> {
    match rfind_seq(s, p) {
        Some(i) => s.subrange(i + p.len(), s.len() as int),
        None => s,
    }
}

pub proof fn lemma_rfind_seq_bounds(s: Seq<char>, p: Seq<char>)
    ensures
        rfind_seq(s, p) matches Some(i) ==> 0 <= i && i + p.len() <= s.len(),
    decreases s.len(),
{
    if s.len() >= p.len() && !has_suffix(s, p) && s.len() > 0 {
        lemma_rfind_seq_bounds(s.drop_last(), p);
    }
}

pub fn after_last_chars(v: &[char], c: char) -> (r: Vec<char>)
    ensures
        r@ == after_last(v@, c),
{
    match rfind(v, c) {
        Some(i) => {
            proof {
                lemma_rfind_char_bounds(v@, c);
            }
            slice_to_vec(v, i + 1, v.len())
        },
        None => slice_to_vec(v, 0, v.len()),
    }
}

pub fn after_last_pat(v: &[char], p: &[char]) -> (r: Vec<char>)
    ensures
        r@ == after_last_seq(v@, p@),
{
    match rfind_pat(v, p) {
        Some(i) => {
            proof {
                lemma_rfind_seq_bounds(v@, p@);
            }
            slice_to_vec(v, i + p.len(), v.len())
        },
        None => slice_to_vec(v, 0, v.len()),
    }
}


/// Strict lexicographic order of characters (the order of `String`'s `Ord`:
/// UTF-8 byte order agrees with code point order); a proper prefix is less.
pub open spec fn text_less(a: Seq<char>, b: Seq<char>) -> bool
    decreases a.len(),
{
    if b.len() == 0 {
        false
    } else if a.len() == 0 {
        true
    } else if a[0] < b[0] {
        true
    } else if a[0] > b[0] {
        false
    } else {
        text_less(a.drop_first(), b.drop_first())
    }
}

pub proof fn lemma_text_less_irreflexive(a: Seq<char>)
    ensures
        !text_less(a, a),
    decreases a.len(),
{
    if a.len() > 0 {
        lemma_text_less_irreflexive(a.drop_first());
    }
}

pub proof fn lemma_text_less_total(a: Seq<char>, b: Seq<char>)
    ensures
        text_less(a, b) || a == b || text_less(b, a),
        !(text_less(a, b) && text_less(b, a)),
    decreases a.len(),
{
    if a.len() > 0 && b.len() > 0 && a[0] == b[0] {
        lemma_text_less_total(a.drop_first(), b.drop_first());
        if a.drop_first() == b.drop_first() {
            assert(a =~= seq![a[0]] + a.drop_first());
            assert(b =~= seq![b[0]] + b.drop_first());
        }
    }
    if a.len() == 0 && b.len() == 0 {
        assert(a =~= b);
    }
}

pub proof fn lemma_text_less_transitive(a: Seq<char>, b: Seq<char>, c: Seq<char>)
    requires
        text_less(a, b),
        text_less(b, c),
    ensures
        text_less(a, c),
    decreases a.len(),
{
    if a.len() > 0 && b.len() > 0 && c.len() > 0 && a[0] == b[0] && b[0] == c[0] {
        lemma_text_less_transitive(a.drop_first(), b.drop_first(), c.drop_first());
    }
}

pub fn chars_less(a: &[char], b: &[char]) -> (r: bool)
    ensures
        r == text_less(a@, b@),
{
    proof {
        lemma_suffix_zero(a@);
        lemma_suffix_zero(b@);
    }
    let mut i: usize = 0;
    while i < a.len() && i < b.len()
        invariant
            i <= a@.len(),
            i <= b@.len(),
            text_less(a@, b@) == text_less(suffix(a@, i), suffix(b@, i)),
        decreases a.len() - i,
    {
        proof {
            lemma_suffix_next(a@, i);
            lemma_suffix_next(b@, i);
        }
        if a[i] < b[i] {
            return true;
        } else if a[i] > b[i] {
            return false;
        }
        i = i + 1;
    }
    i == a.len() && i < b.len()
}


/// Owned strings read as text.
pub open spec fn texts(v: Seq<String>) -> Seq<Seq<char>> {
    v.map_values(|s: String| s@)
}

/// Whether one of the strings equals `b`.
pub fn contains_text(v: &Vec<String>, b: &str) -> (r: bool)
    ensures
        r == texts(v@).contains(b@),
{
    let mut i: usize = 0;
    while i < v.len()
        invariant
            i <= v@.len(),
            forall|j: int| 0 <= j < i ==> v@[j]@ != b@,
        decreases v.len() - i,
    {
        if str_is(v[i].as_str(), b) {
            assert(texts(v@)[i as int] == b@);
            return true;
        }
        i = i + 1;
    }
    assert forall|j: int| 0 <= j < texts(v@).len() implies texts(v@)[j] != b@ by {
        assert(texts(v@)[j] == v@[j]@);
    }
    false
}

/// Element-wise equality of two string lists.
pub fn texts_eq(a: &Vec<String>, b: &Vec<String>) -> (r: bool)
    ensures
        r == (texts(a@) == texts(b@)),
{
    if a.len() != b.len() {
        assert(texts(a@).len() != texts(b@).len());
        return false;
    }
    let mut i: usize = 0;
    while i < a.len()
        invariant
            i <= a@.len(),
            a@.len() == b@.len(),
            forall|j: int| 0 <= j < i ==> a@[j]@ == b@[j]@,
        decreases a.len() - i,
    {
        if !str_is(a[i].as_str(), b[i].as_str()) {
            assert(texts(a@)[i as int] != texts(b@)[i as int]);
            return false;
        }
        i = i + 1;
    }
    assert(texts(a@) =~= texts(b@));
    true
}

} // verus!

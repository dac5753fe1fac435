//! Character-level helpers on strings: prefixes, suffixes, separated
//! segments, decimal text and decimal parsing.
use vstd::prelude::*;
use vstd::string::*;

verus! {

/// `p` is a prefix of `s`.
pub open spec fn is_prefix(p: Seq<char>, s: Seq<char>) -> bool {
    p.len() <= s.len() && s.subrange(0, p.len() as int) == p
}

/// `p` is a suffix of `s`.
pub open spec fn is_suffix(p: Seq<char>, s: Seq<char>) -> bool {
    p.len() <= s.len() && s.subrange(s.len() - p.len(), s.len() as int) == p
}

/// `p` occurs in `s` starting at index `i`.
pub open spec fn occurs_at(s: Seq<char>, p: Seq<char>, i: int) -> bool {
    0 <= i && i + p.len() <= s.len() && s.subrange(i, i + p.len()) == p
}

/// `p` occurs somewhere in `s`.
pub open spec fn occurs_in(s: Seq<char>, p: Seq<char>) -> bool {
    exists|i: int| occurs_at(s, p, i)
}

/// Index of the first `sep` at or after `i`, or the length of `s`.
pub open spec fn next_sep(s: Seq<char>, sep: char, i: int) -> int
    decreases s.len() - i,
{
    if i < 0 || i >= s.len() {
        s.len() as int
    } else if s[i] == sep {
        i
    } else {
        next_sep(s, sep, i + 1)
    }
}

/// The `n`-th piece (counted from the one starting at `start`) of `s` split
/// on `sep`, or `None` when there are fewer pieces.
pub open spec fn segment_from(s: Seq<char>, sep: char, start: int, n: nat) -> Option<Seq<char>>
    decreases n,
{
    let e = next_sep(s, sep, start);
    if n == 0 {
        Some(s.subrange(start, e))
    } else if e >= s.len() {
        None
    } else {
        segment_from(s, sep, e + 1, (n - 1) as nat)
    }
}

/// The `n`-th piece (zero-based) of `s` split on `sep`.
pub open spec fn nth_segment(s: Seq<char>, sep: char, n: nat) -> Option<Seq<char>> {
    segment_from(s, sep, 0, n)
}

/// The decimal digit character for `d < 10`.
pub open spec fn digit_char(d: nat) -> char {
    ((d + 48) as u8) as char
}

/// Decimal digits of a natural number, without leading zeros.
pub open spec fn digits_of(n: nat) -> Seq<char>
    decreases n,
{
    if n < 10 {
        seq![digit_char(n)]
    } else {
        digits_of(n / 10) + seq![digit_char(n % 10)]
    }
}

/// Decimal text of an integer, with a leading `-` when negative.
pub open spec fn int_text(n: int) -> Seq<char> {
    if n < 0 {
        seq!['-'] + digits_of((-n) as nat)
    } else {
        digits_of(n as nat)
    }
}

/// Exactly two digits of `n < 100`, zero-padded.
pub open spec fn two_digits(n: nat) -> Seq<char> {
    seq![digit_char(n / 10), digit_char(n % 10)]
}

/// Exactly three digits of `n < 1000`, zero-padded.
pub open spec fn three_digits(n: nat) -> Seq<char> {
    seq![digit_char(n / 100), digit_char((n / 10) % 10), digit_char(n % 10)]
}

/// Exactly four digits of `n < 10000`, zero-padded.
pub open spec fn four_digits(n: nat) -> Seq<char> {
    seq![digit_char(n / 1000)] + three_digits(n % 1000)
}

/// `c` is an ASCII decimal digit.
pub open spec fn is_digit(c: char) -> bool {
    '0' <= c && c <= '9'
}

/// Every character of `s` is a decimal digit.
pub open spec fn all_digits(s: Seq<char>) -> bool {
    forall|i: int| 0 <= i < s.len() ==> is_digit(#[trigger] s[i])
}

/// Value of a run of decimal digits.
pub open spec fn digits_value(s: Seq<char>) -> int
    decreases s.len(),
{
    if s.len() == 0 {
        0
    } else {
        digits_value(s.drop_last()) * 10 + (s.last() as int - 48)
    }
}

/// The integer written by `s`: an optional `+` or `-`, then one or more
/// decimal digits.
pub open spec fn decimal_value(s: Seq<char>) -> Option<int> {
    if s.len() > 0 && (s[0] == '+' || s[0] == '-') {
        let rest = s.skip(1);
        if rest.len() > 0 && all_digits(rest) {
            Some(if s[0] == '-' { -digits_value(rest) } else { digits_value(rest) })
        } else {
            None
        }
    } else if s.len() > 0 && all_digits(s) {
        Some(digits_value(s))
    } else {
        None
    }
}

/// The `i32` written by `s`, when it is a decimal integer in range.
pub open spec fn parsed_i32(s: Seq<char>) -> Option<i32> {
    match decimal_value(s) {
        Some(v) => if i32::MIN <= v <= i32::MAX {
            Some(v as i32)
        } else {
            None
        },
        None => None,
    }
}

/// Copies the characters `from..to` of `s` into a new string.
pub fn substring(s: &str, from: usize, to: usize) -> (r: String)
    requires
        from <= to <= s@.len(),
    ensures
        r@ == s@.subrange(from as int, to as int),
{
    s.substring_char(from, to).to_owned()
}

/// Whether `s` begins with `p`.
pub fn starts_with(s: &str, p: &str) -> (r: bool)
    ensures
        r == is_prefix(p@, s@),
{
    let n = s.unicode_len();
    let m = p.unicode_len();
    if m > n {
        return false;
    }
    let mut i: usize = 0;
    while i < m
        invariant
            m == p@.len(),
            n == s@.len(),
            m <= n,
            i <= m,
            forall|k: int| 0 <= k < i ==> s@[k] == p@[k],
        decreases m - i,
    {
        if s.get_char(i) != p.get_char(i) {
            assert(s@.subrange(0, m as int)[i as int] != p@[i as int]);
            return false;
        }
        i = i + 1;
    }
    assert(s@.subrange(0, m as int) =~= p@);
    true
}

/// Whether `p` occurs in `s` at index `at`.
pub fn occurs_at_index(s: &str, p: &str, at: usize) -> (r: bool)
    ensures
        r == occurs_at(s@, p@, at as int),
{
    let n = s.unicode_len();
    let m = p.unicode_len();
    if at > n || m > n - at {
        return false;
    }
    let mut i: usize = 0;
    while i < m
        invariant
            m == p@.len(),
            n == s@.len(),
            at + m <= n,
            i <= m,
            forall|k: int| 0 <= k < i ==> s@[at + k] == p@[k],
        decreases m - i,
    {
        if s.get_char(at + i) != p.get_char(i) {
            assert(s@.subrange(at as int, at + m)[i as int] != p@[i as int]);
            return false;
        }
        i = i + 1;
    }
    assert(s@.subrange(at as int, at + m) =~= p@);
    true
}

/// Whether `s` ends with `p`.
pub fn ends_with(s: &str, p: &str) -> (r: bool)
    ensures
        r == is_suffix(p@, s@),
{
    let n = s.unicode_len();
    let m = p.unicode_len();
    if m > n {
        return false;
    }
    occurs_at_index(s, p, n - m)
}

/// Whether `p` occurs anywhere in `s`.
pub fn contains(s: &str, p: &str) -> (r: bool)
    ensures
        r == occurs_in(s@, p@),
{
    let n = s.unicode_len();
    let m = p.unicode_len();
    if m > n {
        assert forall|i: int| !occurs_at(s@, p@, i) by {}
        return false;
    }
    if m == 0 {
        assert(s@.subrange(0, 0) =~= p@);
        assert(occurs_at(s@, p@, 0));
        return true;
    }
    let mut i: usize = 0;
    while i <= n - m
        invariant
            n == s@.len(),
            m == p@.len(),
            0 < m <= n,
            i <= n - m + 1,
            forall|k: int| 0 <= k < i ==> !occurs_at(s@, p@, k),
        decreases n - m + 1 - i,
    {
        if occurs_at_index(s, p, i) {
            return true;
        }
        i = i + 1;
    }
    assert forall|k: int| !occurs_at(s@, p@, k) by {}
    false
}

/// Index of the first `sep` at or after `from`, or the length of `s`.
pub fn find_sep(s: &str, sep: char, from: usize) -> (r: usize)
    requires
        from <= s@.len(),
    ensures
        r as int == next_sep(s@, sep, from as int),
        from <= r <= s@.len(),
{
    let n = s.unicode_len();
    let mut i = from;
    while i < n
        invariant
            n == s@.len(),
            from <= i <= n,
            next_sep(s@, sep, from as int) == next_sep(s@, sep, i as int),
        decreases n - i,
    {
        if s.get_char(i) == sep {
            return i;
        }
        i = i + 1;
    }
    i
}

/// The `n`-th piece (zero-based) of `s` split on `sep`.
pub fn segment(s: &str, sep: char, n: usize) -> (r: Option<String>)
    ensures
        r matches Some(t) ==> nth_segment(s@, sep, n as nat) == Some(t@),
        r is None ==> nth_segment(s@, sep, n as nat) is None,
{
    let len = s.unicode_len();
    let mut start: usize = 0;
    let mut k: usize = 0;
    while k < n
        invariant
            len == s@.len(),
            start <= len,
            k <= n,
            nth_segment(s@, sep, n as nat) == segment_from(s@, sep, start as int, (n - k) as nat),
        decreases n - k,
    {
        let e = find_sep(s, sep, start);
        if e >= len {
            return None;
        }
        start = e + 1;
        k = k + 1;
    }
    let e = find_sep(s, sep, start);
    Some(substring(s, start, e))
}

/// The decimal digit character for `d < 10`.
fn digit_text(d: u64) -> (r: &'static str)
    requires
        d < 10,
    ensures
        r@ == seq![digit_char(d as nat)],
{
    proof {
        reveal_strlit("0");
        reveal_strlit("1");
        reveal_strlit("2");
        reveal_strlit("3");
        reveal_strlit("4");
        reveal_strlit("5");
        reveal_strlit("6");
        reveal_strlit("7");
        reveal_strlit("8");
        reveal_strlit("9");
    }
    let r = if d == 0 {
        "0"
    } else if d == 1 {
        "1"
    } else if d == 2 {
        "2"
    } else if d == 3 {
        "3"
    } else if d == 4 {
        "4"
    } else if d == 5 {
        "5"
    } else if d == 6 {
        "6"
    } else if d == 7 {
        "7"
    } else if d == 8 {
        "8"
    } else {
        "9"
    };
    assert(r@ =~= seq![digit_char(d as nat)]);
    r
}

/// Decimal digits of `n`, without leading zeros.
pub fn nat_text(n: u64) -> (r: String)
    ensures
        r@ == digits_of(n as nat),
    decreases n,
{
    if n < 10 {
        String::from_str(digit_text(n))
    } else {
        let mut r = nat_text(n / 10);
        r.append(digit_text(n % 10));
        r
    }
}

/// Decimal text of `n`, with a leading `-` when negative.
pub fn i32_text(n: i32) -> (r: String)
    ensures
        r@ == int_text(n as int),
{
    if n < 0 {
        let mut r = String::from_str("-");
        let a: i64 = -(n as i64);
        let d = nat_text(a as u64);
        r.append(d.as_str());
        proof {
            reveal_strlit("-");
        }
        r
    } else {
        nat_text(n as u64)
    }
}

/// Exactly two digits of `n`, zero-padded.
pub fn two_digit_text(n: u32) -> (r: String)
    requires
        n < 100,
    ensures
        r@ == two_digits(n as nat),
{
    let mut r = String::from_str(digit_text((n / 10) as u64));
    r.append(digit_text((n % 10) as u64));
    r
}

/// Exactly three digits of `n`, zero-padded.
pub fn three_digit_text(n: u32) -> (r: String)
    requires
        n < 1000,
    ensures
        r@ == three_digits(n as nat),
{
    let mut r = String::from_str(digit_text((n / 100) as u64));
    r.append(digit_text(((n / 10) % 10) as u64));
    r.append(digit_text((n % 10) as u64));
    r
}

/// Exactly four digits of `n`, zero-padded.
pub fn four_digit_text(n: u32) -> (r: String)
    requires
        n < 10000,
    ensures
        r@ == four_digits(n as nat),
{
    let mut r = String::from_str(digit_text((n / 1000) as u64));
    let t = three_digit_text(n % 1000);
    r.append(t.as_str());
    r
}

proof fn lemma_digits_value_nonneg(s: Seq<char>)
    requires
        all_digits(s),
    ensures
        digits_value(s) >= 0,
    decreases s.len(),
{
    if s.len() > 0 {
        assert(is_digit(s[s.len() - 1]));
        assert forall|i: int| 0 <= i < s.drop_last().len() implies is_digit(#[trigger] s.drop_last()[i]) by {
            assert(s.drop_last()[i] == s[i]);
        }
        lemma_digits_value_nonneg(s.drop_last());
    }
}

/// Value of the digits `s[from..]` when it fits in `i32` (with room for a
/// minus sign), else `None`; `s[from..]` must be a non-empty run of digits.
fn digits_in_range(s: &str, from: usize) -> (r: Option<i64>)
    requires
        from < s@.len(),
        all_digits(s@.skip(from as int)),
    ensures
        r matches Some(v) ==> v == digits_value(s@.skip(from as int)) && 0 <= v <= 2147483648,
        r is None ==> digits_value(s@.skip(from as int)) > 2147483648,
{
    let n = s.unicode_len();
    let ghost t = s@.skip(from as int);
    let mut acc: i64 = 0;
    let mut big = false;
    let mut i = from;
    while i < n
        invariant
            n == s@.len(),
            from <= i <= n,
            t == s@.skip(from as int),
            all_digits(t),
            0 <= acc <= 2147483648,
            !big ==> acc == digits_value(t.subrange(0, i - from)),
            big ==> digits_value(t.subrange(0, i - from)) > 2147483648,
        decreases n - i,
    {
        let c = s.get_char(i);
        let ghost pre = t.subrange(0, i - from);
        let ghost next = t.subrange(0, i + 1 - from);
        proof {
            assert(next.drop_last() =~= pre);
            assert(next.last() == c);
            assert(t[i - from] == c);
            assert(is_digit(c));
            assert forall|k: int| 0 <= k < pre.len() implies is_digit(#[trigger] pre[k]) by {
                assert(pre[k] == t[k]);
            }
            lemma_digits_value_nonneg(pre);
        }
        let d = (c as u32 - 48) as i64;
        if !big {
            let v = acc * 10 + d;
            if v > 2147483648 {
                big = true;
            } else {
                acc = v;
            }
        } else {
            assert(digits_value(next) > 2147483648) by (nonlinear_arith)
                requires
                    digits_value(next) == digits_value(pre) * 10 + d,
                    digits_value(pre) > 2147483648,
                    d >= 0,
            ;
        }
        i = i + 1;
    }
    assert(t.subrange(0, n - from) =~= t);
    if big {
        None
    } else {
        Some(acc)
    }
}

/// Whether every character of `s[from..]` is a decimal digit.
fn digits_from(s: &str, from: usize) -> (r: bool)
    requires
        from <= s@.len(),
    ensures
        r == all_digits(s@.skip(from as int)),
{
    let n = s.unicode_len();
    let mut i = from;
    while i < n
        invariant
            n == s@.len(),
            from <= i <= n,
            forall|k: int| from <= k < i ==> is_digit(#[trigger] s@[k]),
        decreases n - i,
    {
        let c = s.get_char(i);
        if !('0' <= c && c <= '9') {
            assert(s@.skip(from as int)[i - from] == c);
            return false;
        }
        i = i + 1;
    }
    assert forall|k: int| 0 <= k < s@.skip(from as int).len() implies is_digit(
        #[trigger] s@.skip(from as int)[k],
    ) by {
        assert(s@.skip(from as int)[k] == s@[from + k]);
    }
    true
}

/// Parses `s` as an `i32`: an optional sign, then one or more decimal
/// digits, with the value in range.
pub fn parse_i32(s: &str) -> (r: Option<i32>)
    ensures
        r == parsed_i32(s@),
{
    let n = s.unicode_len();
    if n == 0 {
        return None;
    }
    let c = s.get_char(0);
    let signed = c == '+' || c == '-';
    let from: usize = if signed { 1 } else { 0 };
    assert(s@.skip(0) =~= s@);
    assert(s@.skip(1) =~= s@.skip(from as int) || !signed);
    if from >= n || !digits_from(s, from) {
        if !signed {
            assert(!all_digits(s@));
        }
        return None;
    }
    match digits_in_range(s, from) {
        Some(v) => {
            if c == '-' {
                Some((-v) as i32)
            } else if v <= 2147483647 {
                Some(v as i32)
            } else {
                None
            }
        },
        None => None,
    }
}

} // verus!

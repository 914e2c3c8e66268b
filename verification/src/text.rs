//! Character-level string helpers shared by the URL, SQL, CSV and report builders.
use vstd::prelude::*;
use vstd::string::*;

verus! {

/// The characters that Unicode marks `White_Space`, which is what `str::trim` removes.
pub open spec fn is_ws(c: char) -> bool {
    ||| ('\u{9}' <= c && c <= '\u{d}')
    ||| c == ' '
    ||| c == '\u{85}'
    ||| c == '\u{a0}'
    ||| c == '\u{1680}'
    ||| ('\u{2000}' <= c && c <= '\u{200a}')
    ||| c == '\u{2028}'
    ||| c == '\u{2029}'
    ||| c == '\u{202f}'
    ||| c == '\u{205f}'
    ||| c == '\u{3000}'
}

/// `s` without its leading white space.
pub open spec fn trim_start(s: Seq<char>) -> Seq<char>
    decreases s.len(),
{
    if s.len() > 0 && is_ws(s[0]) {
        trim_start(s.drop_first())
    } else {
        s
    }
}

/// `s` without its trailing white space.
pub open spec fn trim_end(s: Seq<char>) -> Seq<char>
    decreases s.len(),
{
    if s.len() > 0 && is_ws(s.last()) {
        trim_end(s.drop_last())
    } else {
        s
    }
}

/// `s` without white space at either end, as `str::trim` gives it.
pub open spec fn trim(s: Seq<char>) -> Seq<char> {
    trim_end(trim_start(s))
}

/// `t` is a suffix of `s`.
pub open spec fn ends_with(s: Seq<char>, t: Seq<char>) -> bool {
    t.len() <= s.len() && s.subrange(s.len() - t.len(), s.len() as int) == t
}

/// `t` occurs in `s` at position `i`.
pub open spec fn occurs_at(s: Seq<char>, t: Seq<char>, i: int) -> bool {
    0 <= i && i + t.len() <= s.len() && s.subrange(i, i + t.len()) == t
}

/// `t` occurs somewhere in `s`.
pub open spec fn contains(s: Seq<char>, t: Seq<char>) -> bool {
    exists|i: int| occurs_at(s, t, i)
}

/// The decimal digit character for `d < 10`.
pub open spec fn digit_char(d: nat) -> char {
    (d + 48) as char
}

/// Decimal digits of a natural number, without leading zeros.
pub open spec fn nat_text(n: nat) -> Seq<char>
    decreases n,
{
    if n < 10 {
        seq![digit_char(n)]
    } else {
        nat_text(n / 10).push(digit_char(n % 10))
    }
}

/// Decimal text of an integer, as `Display` writes it for Rust integers.
pub open spec fn int_text(i: int) -> Seq<char> {
    if i < 0 {
        seq!['-'] + nat_text((-i) as nat)
    } else {
        nat_text(i as nat)
    }
}

proof fn lemma_nat_text_digits(n: nat)
    ensures
        forall|i: int|
            0 <= i < nat_text(n).len() ==> 48 <= (#[trigger] nat_text(n)[i]) as int <= 57,
    decreases n,
{
    if n >= 10 {
        lemma_nat_text_digits(n / 10);
        let t = nat_text(n / 10);
        assert forall|i: int| 0 <= i < nat_text(n).len() implies 48 <= (#[trigger] nat_text(
            n,
        )[i]) as int <= 57 by {
            if i < t.len() {
                assert(nat_text(n)[i] == t[i]);
            }
        }
    }
}

/// The decimal text of an integer holds only a minus sign and digits.
pub proof fn lemma_int_text_chars(i: int)
    ensures
        forall|k: int|
            0 <= k < int_text(i).len() ==> (#[trigger] int_text(i)[k]) == '-' || 48 <= int_text(
                i,
            )[k] as int <= 57,
{
    if i < 0 {
        let n = (-i) as nat;
        lemma_nat_text_digits(n);
        assert forall|k: int| 0 <= k < int_text(i).len() implies (#[trigger] int_text(i)[k]) == '-'
            || 48 <= int_text(i)[k] as int <= 57 by {
            if k > 0 {
                assert(int_text(i)[k] == nat_text(n)[k - 1]);
            }
        }
    } else {
        lemma_nat_text_digits(i as nat);
    }
}

/// Appends one character to a `String` (`String::push`).
#[verifier::external_body]
pub(crate) fn push_char(s: &mut String, c: char)
    ensures
        final(s)@ == old(s)@.push(c),
{
    s.push(c);
}

/// The characters of `s`, in order.
pub fn chars_of(s: &str) -> (v: Vec<char>)
    ensures
        v@ == s@,
{
    let n = s.unicode_len();
    let mut v: Vec<char> = Vec::new();
    for i in 0..n
        invariant
            n == s@.len(),
            v@ == s@.subrange(0, i as int),
    {
        let c = s.get_char(i);
        v.push(c);
        assert(v@ =~= s@.subrange(0, i + 1));
    }
    assert(v@ =~= s@);
    v
}

/// A `String` holding exactly the characters of `v`.
pub fn string_of(v: &[char]) -> (s: String)
    ensures
        s@ == v@,
{
    let mut s = String::new();
    for i in 0..v.len()
        invariant
            s@ == v@.subrange(0, i as int),
    {
        push_char(&mut s, v[i]);
        assert(s@ =~= v@.subrange(0, i + 1));
    }
    assert(s@ =~= v@);
    s
}

/// Appends the characters of `t` to `v`.
pub fn extend_chars(v: &mut Vec<char>, t: &[char])
    ensures
        final(v)@ == old(v)@ + t@,
{
    for i in 0..t.len()
        invariant
            v@ == old(v)@ + t@.subrange(0, i as int),
    {
        v.push(t[i]);
        assert(v@ =~= old(v)@ + t@.subrange(0, i + 1));
    }
    assert(t@.subrange(0, t@.len() as int) =~= t@);
}

/// Appends the characters of `t` to `v`.
pub fn extend_str(v: &mut Vec<char>, t: &str)
    ensures
        final(v)@ == old(v)@ + t@,
{
    let tc = chars_of(t);
    extend_chars(v, tc.as_slice());
}

/// The concatenation of two strings.
pub fn concat2(a: &str, b: &str) -> (s: String)
    ensures
        s@ == a@ + b@,
{
    let mut s = a.to_owned();
    s.append(b);
    s
}

/// The decimal digit character for `d`.
pub fn digit(d: u64) -> (c: char)
    requires
        d < 10,
    ensures
        c == digit_char(d as nat),
{
    let b: u8 = d as u8 + 48u8;
    b as char
}

/// Decimal digits of `n`.
pub fn u64_chars(n: u64) -> (v: Vec<char>)
    ensures
        v@ == nat_text(n as nat),
    decreases n,
{
    if n < 10 {
        let mut v: Vec<char> = Vec::new();
        v.push(digit(n));
        assert(v@ =~= nat_text(n as nat));
        v
    } else {
        let mut v = u64_chars(n / 10);
        v.push(digit(n % 10));
        v
    }
}

/// Decimal text of `i`, as `i.to_string()` gives it.
pub fn i64_chars(i: i64) -> (v: Vec<char>)
    ensures
        v@ == int_text(i as int),
{
    if i < 0 {
        let m: u64 = ((-(i + 1)) as u64) + 1;
        let d = u64_chars(m);
        let mut v: Vec<char> = Vec::new();
        v.push('-');
        extend_chars(&mut v, d.as_slice());
        v
    } else {
        u64_chars(i as u64)
    }
}

/// Decimal text of `i`, as `i.to_string()` gives it.
pub fn i64_text(i: i64) -> (s: String)
    ensures
        s@ == int_text(i as int),
{
    let v = i64_chars(i);
    string_of(v.as_slice())
}

/// Decides whether `c` is Unicode white space.
pub fn char_is_ws(c: char) -> (b: bool)
    ensures
        b == is_ws(c),
{
    ('\u{9}' <= c && c <= '\u{d}') || c == ' ' || c == '\u{85}' || c == '\u{a0}' || c == '\u{1680}'
        || ('\u{2000}' <= c && c <= '\u{200a}') || c == '\u{2028}' || c == '\u{2029}' || c
        == '\u{202f}' || c == '\u{205f}' || c == '\u{3000}'
}

/// `trim_start` of a subrange starting at `i` steps past a white-space character.
proof fn lemma_trim_start_step(s: Seq<char>, i: int)
    requires
        0 <= i < s.len(),
        is_ws(s[i]),
    ensures
        trim_start(s.subrange(i, s.len() as int)) == trim_start(s.subrange(i + 1, s.len() as int)),
{
    let t = s.subrange(i, s.len() as int);
    assert(t.drop_first() =~= s.subrange(i + 1, s.len() as int));
}

/// `trim_end` of a prefix ending at `j` steps past a white-space character.
proof fn lemma_trim_end_step(s: Seq<char>, j: int)
    requires
        0 < j <= s.len(),
        is_ws(s[j - 1]),
    ensures
        trim_end(s.subrange(0, j)) == trim_end(s.subrange(0, j - 1)),
{
    let t = s.subrange(0, j);
    assert(t.drop_last() =~= s.subrange(0, j - 1));
}

/// The characters of `s` with white space removed at both ends (`str::trim`).
pub fn trim_chars(s: &[char]) -> (r: Vec<char>)
    ensures
        r@ == trim(s@),
{
    let n = s.len();
    let mut i: usize = 0;
    assert(s@.subrange(0, n as int) =~= s@);
    while i < n && char_is_ws(s[i])
        invariant
            i <= n,
            n == s@.len(),
            trim_start(s@) == trim_start(s@.subrange(i as int, n as int)),
        decreases n - i,
    {
        proof {
            lemma_trim_start_step(s@, i as int);
        }
        i = i + 1;
    }
    let ghost front = s@.subrange(i as int, n as int);
    assert(trim_start(s@) == front);
    let mut j: usize = n;
    while j > i && char_is_ws(s[j - 1])
        invariant
            i <= j <= n,
            n == s@.len(),
            front == s@.subrange(i as int, n as int),
            trim_end(front) == trim_end(s@.subrange(i as int, j as int)),
        decreases j,
    {
        proof {
            let f = s@.subrange(i as int, j as int);
            lemma_trim_end_step(f, (j - i) as int);
            assert(f.subrange(0, (j - i) as int) =~= f);
            assert(f.subrange(0, (j - i - 1) as int) =~= s@.subrange(i as int, j - 1));
        }
        j = j - 1;
    }
    let mut r: Vec<char> = Vec::new();
    for k in i..j
        invariant
            i <= j <= n,
            n == s@.len(),
            r@ == s@.subrange(i as int, k as int),
    {
        r.push(s[k]);
        assert(r@ =~= s@.subrange(i as int, k + 1));
    }
    r
}

/// Decides whether `t` is a suffix of `s`.
pub fn ends_with_chars(s: &[char], t: &[char]) -> (b: bool)
    ensures
        b == ends_with(s@, t@),
{
    if t.len() > s.len() {
        return false;
    }
    let off = s.len() - t.len();
    for k in 0..t.len()
        invariant
            off == s@.len() - t@.len(),
            s.len() == s@.len(),
            t.len() == t@.len(),
            forall|m: int| 0 <= m < k ==> s@[off + m] == t@[m],
    {
        if s[off + k] != t[k] {
            assert(s@.subrange(off as int, s@.len() as int)[k as int] != t@[k as int]);
            return false;
        }
    }
    assert(s@.subrange(off as int, s@.len() as int) =~= t@);
    true
}

/// Decides whether `t` occurs in `s` at position `i`.
fn occurs_at_chars(s: &[char], t: &[char], i: usize) -> (b: bool)
    requires
        i + t@.len() <= s@.len(),
    ensures
        b == occurs_at(s@, t@, i as int),
{
    for k in 0..t.len()
        invariant
            i + t@.len() <= s@.len(),
            s.len() == s@.len(),
            t.len() == t@.len(),
            forall|m: int| 0 <= m < k ==> s@[i + m] == t@[m],
    {
        if s[i + k] != t[k] {
            assert(s@.subrange(i as int, i + t@.len())[k as int] != t@[k as int]);
            return false;
        }
    }
    assert(s@.subrange(i as int, i + t@.len()) =~= t@);
    true
}

/// Decides whether `t` occurs in `s`.
pub fn contains_chars(s: &[char], t: &[char]) -> (b: bool)
    ensures
        b == contains(s@, t@),
{
    if t.len() > s.len() {
        return false;
    }
    if t.len() == 0 {
        assert(s@.subrange(0, 0) =~= t@);
        assert(occurs_at(s@, t@, 0));
        return true;
    }
    let last = s.len() - t.len();
    let mut i: usize = 0;
    while i <= last
        invariant
            last == s@.len() - t@.len(),
            s.len() == s@.len(),
            t.len() == t@.len(),
            t@.len() > 0,
            i <= last + 1,
            forall|m: int| 0 <= m < i ==> !occurs_at(s@, t@, m),
        decreases last + 1 - i,
    {
        if occurs_at_chars(s, t, i) {
            return true;
        }
        i = i + 1;
    }
    false
}

/// Decides whether two character sequences are equal.
pub fn chars_eq(a: &[char], b: &[char]) -> (r: bool)
    ensures
        r == (a@ == b@),
{
    if a.len() != b.len() {
        return false;
    }
    for k in 0..a.len()
        invariant
            a.len() == a@.len(),
            b.len() == b@.len(),
            a@.len() == b@.len(),
            forall|m: int| 0 <= m < k ==> a@[m] == b@[m],
    {
        if a[k] != b[k] {
            return false;
        }
    }
    assert(a@ =~= b@);
    true
}

/// Decides whether two strings hold the same characters.
pub fn str_eq(a: &str, b: &str) -> (r: bool)
    ensures
        r == (a@ == b@),
{
    let av = chars_of(a);
    let bv = chars_of(b);
    chars_eq(av.as_slice(), bv.as_slice())
}

/// Whether `c` is an ASCII decimal digit.
pub open spec fn is_digit(c: char) -> bool {
    '0' <= c && c <= '9'
}

/// The value of a decimal digit.
pub open spec fn digit_val(c: char) -> int {
    c as int - 48
}

/// The value of a sequence of decimal digits.
pub open spec fn digits_value(s: Seq<char>) -> int
    decreases s.len(),
{
    if s.len() == 0 {
        0
    } else {
        digits_value(s.drop_last()) * 10 + digit_val(s.last())
    }
}

/// Every character of `s` is a decimal digit.
pub open spec fn all_digits(s: Seq<char>) -> bool {
    forall|i: int| 0 <= i < s.len() ==> is_digit(#[trigger] s[i])
}

/// The integer that `s` writes in decimal: an optional `+` or `-`, then one
/// or more digits, nothing else.
pub open spec fn parse_int(s: Seq<char>) -> Option<int> {
    if s.len() > 0 && (s[0] == '-' || s[0] == '+') {
        let d = s.drop_first();
        if d.len() > 0 && all_digits(d) {
            Some(
                if s[0] == '-' {
                    -digits_value(d)
                } else {
                    digits_value(d)
                },
            )
        } else {
            None
        }
    } else if s.len() > 0 && all_digits(s) {
        Some(digits_value(s))
    } else {
        None
    }
}

/// The 64-bit integer that `s` writes in decimal, `None` when `s` is not a
/// decimal integer or its value does not fit.
pub open spec fn parse_i64(s: Seq<char>) -> Option<i64> {
    match parse_int(s) {
        Some(v) => if i64::MIN <= v && v <= i64::MAX {
            Some(v as i64)
        } else {
            None
        },
        None => None,
    }
}

proof fn lemma_digits_value_nonneg(s: Seq<char>)
    requires
        all_digits(s),
    ensures
        digits_value(s) >= 0,
    decreases s.len(),
{
    if s.len() > 0 {
        lemma_digits_value_nonneg(s.drop_last());
    }
}

/// Reads an unsigned decimal number from `d`, or `None` when it exceeds `cap`.
fn digits_upto(d: &[char], cap: u64) -> (r: Option<u64>)
    requires
        all_digits(d@),
        9 <= cap <= 0x8000_0000_0000_0000u64,
    ensures
        match r {
            Some(v) => v == digits_value(d@) && v <= cap,
            None => digits_value(d@) > cap,
        },
{
    let mut acc: u64 = 0;
    let mut over = false;
    for i in 0..d.len()
        invariant
            all_digits(d@),
            9 <= cap <= 0x8000_0000_0000_0000u64,
            d.len() == d@.len(),
            !over ==> acc == digits_value(d@.subrange(0, i as int)) && acc <= cap,
            over ==> digits_value(d@.subrange(0, i as int)) > cap,
    {
        let ghost pre = d@.subrange(0, i as int);
        let ghost next = d@.subrange(0, i + 1);
        assert(next.drop_last() =~= pre);
        assert(is_digit(d@[i as int]));
        let dv: u64 = (d[i] as u64) - 48;
        proof {
            lemma_digits_value_nonneg(pre);
        }
        if !over {
            if acc > (cap - dv) / 10 {
                over = true;
                assert(acc * 10 + dv > cap) by (nonlinear_arith)
                    requires
                        acc > (cap - dv) / 10,
                        dv <= cap || dv > cap,
                        dv < 10,
                ;
            } else {
                assert(acc * 10 + dv <= cap) by (nonlinear_arith)
                    requires
                        acc <= (cap - dv) / 10,
                        dv < 10,
                        cap >= dv,
                ;
                acc = acc * 10 + dv;
            }
        } else {
            assert(digits_value(next) >= digits_value(pre));
        }
    }
    assert(d@.subrange(0, d@.len() as int) =~= d@);
    if over {
        None
    } else {
        Some(acc)
    }
}

/// `c` is the letter `lower` or its upper-case form `upper`.
pub open spec fn either_case(c: char, lower: char, upper: char) -> bool {
    c == lower || c == upper
}

/// The boolean that `s` spells as `true` or `false`, in any mix of upper and
/// lower case.
pub open spec fn parse_bool(s: Seq<char>) -> Option<bool> {
    if s.len() == 4 && either_case(s[0], 't', 'T') && either_case(s[1], 'r', 'R') && either_case(
        s[2],
        'u',
        'U',
    ) && either_case(s[3], 'e', 'E') {
        Some(true)
    } else if s.len() == 5 && either_case(s[0], 'f', 'F') && either_case(s[1], 'a', 'A')
        && either_case(s[2], 'l', 'L') && either_case(s[3], 's', 'S') && either_case(
        s[4],
        'e',
        'E',
    ) {
        Some(false)
    } else {
        None
    }
}

/// Parses `true` or `false`, in any mix of upper and lower case.
pub fn parse_bool_chars(s: &[char]) -> (r: Option<bool>)
    ensures
        r == parse_bool(s@),
{
    if s.len() == 4 && (s[0] == 't' || s[0] == 'T') && (s[1] == 'r' || s[1] == 'R') && (s[2]
        == 'u' || s[2] == 'U') && (s[3] == 'e' || s[3] == 'E') {
        Some(true)
    } else if s.len() == 5 && (s[0] == 'f' || s[0] == 'F') && (s[1] == 'a' || s[1] == 'A') && (
    s[2] == 'l' || s[2] == 'L') && (s[3] == 's' || s[3] == 'S') && (s[4] == 'e' || s[4] == 'E') {
        Some(false)
    } else {
        None
    }
}

/// Parses a decimal 64-bit integer (as `str::parse::<i64>` accepts it).
pub fn parse_i64_chars(s: &[char]) -> (r: Option<i64>)
    ensures
        r == parse_i64(s@),
{
    if s.len() == 0 {
        return None;
    }
    let neg = s[0] == '-';
    let signed = s[0] == '-' || s[0] == '+';
    assert(s@.len() > 0);
    assert(signed == (s@[0] == '-' || s@[0] == '+'));
    let mut d: Vec<char> = Vec::new();
    let start: usize = if signed { 1 } else { 0 };
    for i in start..s.len()
        invariant
            start <= s@.len(),
            d@ == s@.subrange(start as int, i as int),
    {
        d.push(s[i]);
        assert(d@ =~= s@.subrange(start as int, i + 1));
    }
    assert(d@ =~= s@.subrange(start as int, s@.len() as int));
    if signed {
        assert(d@ =~= s@.drop_first());
    } else {
        assert(d@ =~= s@);
    }
    if d.len() == 0 {
        return None;
    }
    let mut k: usize = 0;
    while k < d.len()
        invariant
            k <= d@.len(),
            d@.len() > 0,
            s@.len() > 0,
            signed == (s@[0] == '-' || s@[0] == '+'),
            signed ==> d@ == s@.drop_first(),
            !signed ==> d@ == s@,
            forall|m: int| 0 <= m < k ==> is_digit(#[trigger] d@[m]),
        decreases d@.len() - k,
    {
        if !(d[k] >= '0' && d[k] <= '9') {
            assert(!all_digits(d@));
            return None;
        }
        k = k + 1;
    }
    assert(all_digits(d@));
    if neg {
        match digits_upto(d.as_slice(), 0x8000_0000_0000_0000u64) {
            Some(v) => {
                if v == 0x8000_0000_0000_0000u64 {
                    Some(i64::MIN)
                } else {
                    Some(-(v as i64))
                }
            },
            None => None,
        }
    } else {
        match digits_upto(d.as_slice(), 0x7fff_ffff_ffff_ffffu64) {
            Some(v) => Some(v as i64),
            None => None,
        }
    }
}

/// `c` with ASCII upper-case letters mapped to lower case.
pub open spec fn ascii_lower_char(c: char) -> char {
    if 'A' <= c && c <= 'Z' {
        ((c as int) + 32) as char
    } else {
        c
    }
}

/// Whether every character of `s` is ASCII.
pub open spec fn all_ascii(s: Seq<char>) -> bool {
    forall|i: int| 0 <= i < s.len() ==> (#[trigger] s[i]) as int <= 127
}

/// The Unicode lower-case form of `s`, as `str::to_lowercase` gives it.
pub uninterp spec fn lowercase(s: Seq<char>) -> Seq<char>;

/// The lower-case form of `s` (`str::to_lowercase`). The contract names the
/// result, and states it for ASCII text: upper-case letters become lower
/// case, everything else stays; the rest of Unicode's case mapping is not
/// stated.
#[verifier::external_body]
pub(crate) fn to_lowercase(s: &str) -> (r: String)
    ensures
        r@ == lowercase(s@),
        all_ascii(s@) ==> r@ == s@.map_values(|c: char| ascii_lower_char(c)),
{
    s.to_lowercase()
}

} // verus!

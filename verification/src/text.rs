//! Small text utilities: decimal rendering of numbers and the character
//! scanning that the target syntax is read with.

use vstd::prelude::*;

verus! {

pub open spec fn digit_char(d: int) -> char {
    if d == 0 {
        '0'
    } else if d == 1 {
        '1'
    } else if d == 2 {
        '2'
    } else if d == 3 {
        '3'
    } else if d == 4 {
        '4'
    } else if d == 5 {
        '5'
    } else if d == 6 {
        '6'
    } else if d == 7 {
        '7'
    } else if d == 8 {
        '8'
    } else {
        '9'
    }
}

/// The decimal digits of `n`, most significant first, without leading zeros.
pub open spec fn decimal(n: nat) -> Seq<char>
    decreases n,
{
    if n < 10 {
        seq![digit_char(n as int)]
    } else {
        decimal(n / 10).push(digit_char((n % 10) as int))
    }
}

fn digit_str(d: u64) -> (r: &'static str)
    requires
        d < 10,
    ensures
        r@ == seq![digit_char(d as int)],
{
    if d == 0 {
        proof { reveal_strlit("0"); }
        "0"
    } else if d == 1 {
        proof { reveal_strlit("1"); }
        "1"
    } else if d == 2 {
        proof { reveal_strlit("2"); }
        "2"
    } else if d == 3 {
        proof { reveal_strlit("3"); }
        "3"
    } else if d == 4 {
        proof { reveal_strlit("4"); }
        "4"
    } else if d == 5 {
        proof { reveal_strlit("5"); }
        "5"
    } else if d == 6 {
        proof { reveal_strlit("6"); }
        "6"
    } else if d == 7 {
        proof { reveal_strlit("7"); }
        "7"
    } else if d == 8 {
        proof { reveal_strlit("8"); }
        "8"
    } else {
        proof { reveal_strlit("9"); }
        "9"
    }
}

/// Renders `n` in decimal.
pub fn u64_to_string(n: u64) -> (r: String)
    ensures
        r@ == decimal(n as nat),
    decreases n,
{
    if n < 10 {
        String::from_str(digit_str(n))
    } else {
        let mut s = u64_to_string(n / 10);
        s.append(digit_str(n % 10));
        s
    }
}


/// Index of the first `c` in `s`, or -1 when `s` holds none.
pub open spec fn first_pos(s: Seq<char>, c: char) -> int
    decreases s.len(),
{
    if s.len() == 0 {
        -1
    } else if s[0] == c {
        0
    } else {
        let p = first_pos(s.drop_first(), c);
        if p < 0 {
            -1
        } else {
            p + 1
        }
    }
}

pub proof fn lemma_first_pos(s: Seq<char>, c: char)
    ensures
        -1 <= first_pos(s, c) < s.len(),
        first_pos(s, c) < 0 <==> !s.contains(c),
        first_pos(s, c) >= 0 ==> s[first_pos(s, c)] == c,
        forall|j: int| 0 <= j < first_pos(s, c) ==> s[j] != c,
        first_pos(s, c) < 0 ==> forall|j: int| 0 <= j < s.len() ==> s[j] != c,
    decreases s.len(),
{
    if s.len() > 0 {
        lemma_first_pos(s.drop_first(), c);
        if s[0] != c {
            assert forall|j: int| 0 <= j < first_pos(s, c) implies s[j] != c by {
                if j > 0 {
                    assert(s[j] == s.drop_first()[j - 1]);
                }
            }
            if first_pos(s.drop_first(), c) < 0 {
                assert forall|j: int| 0 <= j < s.len() implies s[j] != c by {
                    if j > 0 {
                        assert(s[j] == s.drop_first()[j - 1]);
                    }
                }
            } else {
                assert(s.contains(c)) by {
                    assert(s[first_pos(s, c)] == c);
                }
            }
        }
    }
}

/// The first index of `c` in `s`.
pub fn find_char(s: &str, c: char) -> (r: Option<usize>)
    ensures
        r == (if first_pos(s@, c) < 0 {
            None::<usize>
        } else {
            Some(first_pos(s@, c) as usize)
        }),
{
    proof {
        lemma_first_pos(s@, c);
    }
    let n = s.unicode_len();
    let mut i: usize = 0;
    while i < n
        invariant
            n == s@.len(),
            0 <= i <= n,
            forall|j: int| 0 <= j < i ==> s@[j] != c,
        decreases n - i,
    {
        if s.get_char(i) == c {
            proof {
                lemma_first_pos(s@, c);
            }
            return Some(i);
        }
        i = i + 1;
    }
    None
}

pub fn contains_char(s: &str, c: char) -> (r: bool)
    ensures
        r == s@.contains(c),
{
    proof {
        lemma_first_pos(s@, c);
    }
    find_char(s, c).is_some()
}

/// Whether `t` occurs in `s` starting at index `i`.
pub open spec fn occurs_at(s: Seq<char>, t: Seq<char>, i: int) -> bool {
    0 <= i && i + t.len() <= s.len() && s.subrange(i, i + t.len()) == t
}

/// Whether `t` occurs somewhere in `s`.
pub open spec fn spec_contains_str(s: Seq<char>, t: Seq<char>) -> bool {
    exists|i: int| #[trigger] occurs_at(s, t, i)
}

fn matches_at(s: &str, t: &str, i: usize) -> (r: bool)
    requires
        i + t@.len() <= s@.len(),
    ensures
        r == occurs_at(s@, t@, i as int),
{
    let m = t.unicode_len();
    let n = s.unicode_len();
    let mut j: usize = 0;
    while j < m
        invariant
            m == t@.len(),
            n == s@.len(),
            i + m <= s@.len(),
            0 <= j <= m,
            forall|k: int| 0 <= k < j ==> s@[i + k] == t@[k],
        decreases m - j,
    {
        if s.get_char(i + j) != t.get_char(j) {
            proof {
                assert(s@.subrange(i as int, i + m)[j as int] != t@[j as int]);
            }
            return false;
        }
        j = j + 1;
    }
    assert(s@.subrange(i as int, i + m) =~= t@);
    true
}

/// Whether `t` occurs somewhere in `s`.
pub fn contains_str(s: &str, t: &str) -> (r: bool)
    ensures
        r == spec_contains_str(s@, t@),
{
    let n = s.unicode_len();
    let m = t.unicode_len();
    if m > n {
        proof {
            assert forall|i: int| !occurs_at(s@, t@, i) by {}
        }
        return false;
    }
    if m == 0 {
        assert(occurs_at(s@, t@, 0)) by {
            assert(s@.subrange(0, 0) =~= t@);
        }
        return true;
    }
    let mut i: usize = 0;
    while i <= n - m
        invariant
            n == s@.len(),
            m == t@.len(),
            1 <= m <= n,
            0 <= i <= n - m + 1,
            forall|k: int| 0 <= k < i ==> !occurs_at(s@, t@, k),
        decreases n - m + 1 - i,
    {
        if matches_at(s, t, i) {
            return true;
        }
        i = i + 1;
    }
    proof {
        assert forall|k: int| !occurs_at(s@, t@, k) by {
            if 0 <= k && k < i {
            }
        }
    }
    false
}

/// Whether `s` starts with `t`.
pub fn starts_with(s: &str, t: &str) -> (r: bool)
    ensures
        r == occurs_at(s@, t@, 0),
{
    let n = s.unicode_len();
    let m = t.unicode_len();
    if m > n {
        return false;
    }
    matches_at(s, t, 0)
}

/// The text before and after the first `c`, when there is one.
pub open spec fn spec_split_once(s: Seq<char>, c: char) -> Option<(Seq<char>, Seq<char>)> {
    let p = first_pos(s, c);
    if p < 0 {
        None
    } else {
        Some((s.take(p), s.skip(p + 1)))
    }
}

pub fn split_once(s: &str, c: char) -> (r: Option<(&str, &str)>)
    ensures
        r is None <==> spec_split_once(s@, c) is None,
        r matches Some((a, b)) ==> spec_split_once(s@, c) == Some((a@, b@)),
{
    proof {
        lemma_first_pos(s@, c);
    }
    match find_char(s, c) {
        None => None,
        Some(p) => {
            let n = s.unicode_len();
            let a = s.substring_char(0, p);
            let b = s.substring_char(p + 1, n);
            assert(a@ =~= s@.take(p as int));
            assert(b@ =~= s@.skip(p + 1));
            Some((a, b))
        },
    }
}

/// The pieces of `s` between the occurrences of `c`; at least one piece.
pub open spec fn split_seq(s: Seq<char>, c: char) -> Seq<Seq<char>>
    decreases s.len(),
{
    let p = first_pos(s, c);
    if p < 0 || p >= s.len() {
        seq![s]
    } else {
        seq![s.take(p)] + split_seq(s.skip(p + 1), c)
    }
}

/// Splits `s` at every `c`.
pub fn split_str(s: &str, c: char) -> (r: Vec<&str>)
    ensures
        r@.len() == split_seq(s@, c).len(),
        forall|i: int| 0 <= i < r@.len() ==> (#[trigger] r@[i])@ == split_seq(s@, c)[i],
    decreases s@.len(),
{
    proof {
        lemma_first_pos(s@, c);
    }
    match split_once(s, c) {
        None => {
            let mut v: Vec<&str> = Vec::new();
            v.push(s);
            v
        },
        Some((a, b)) => {
            let mut rest = split_str(b, c);
            rest.insert(0, a);
            assert forall|i: int| 0 <= i < rest@.len() implies (#[trigger] rest@[i])@ == split_seq(
                s@,
                c,
            )[i] by {
                if i > 0 {
                    assert(split_seq(s@, c)[i] == split_seq(b@, c)[i - 1]);
                }
            }
            rest
        },
    }
}

/// Characters with the Unicode `White_Space` property.
pub open spec fn is_ws(c: char) -> bool {
    ||| c == ' '
    ||| ('\t' <= c && c <= '\r')
    ||| c == '\u{85}'
    ||| c == '\u{a0}'
    ||| c == '\u{1680}'
    ||| ('\u{2000}' <= c && c <= '\u{200a}')
    ||| c == '\u{2028}'
    ||| c == '\u{2029}'
    ||| c == '\u{202f}'
    ||| c == '\u{205f}'
    ||| c == '\u{3000}'
}

pub fn char_is_ws(c: char) -> (r: bool)
    ensures
        r == is_ws(c),
{
    c == ' ' || ('\t' <= c && c <= '\r') || c == '\u{85}' || c == '\u{a0}' || c == '\u{1680}' || (
    '\u{2000}' <= c && c <= '\u{200a}') || c == '\u{2028}' || c == '\u{2029}' || c == '\u{202f}'
        || c == '\u{205f}' || c == '\u{3000}'
}

pub open spec fn trim_start(s: Seq<char>) -> Seq<char>
    decreases s.len(),
{
    if s.len() > 0 && is_ws(s[0]) {
        trim_start(s.drop_first())
    } else {
        s
    }
}

pub open spec fn trim_end(s: Seq<char>) -> Seq<char>
    decreases s.len(),
{
    if s.len() > 0 && is_ws(s.last()) {
        trim_end(s.drop_last())
    } else {
        s
    }
}

/// `s` without its leading and trailing white space.
pub open spec fn trim_seq(s: Seq<char>) -> Seq<char> {
    trim_end(trim_start(s))
}

pub fn trim(s: &str) -> (r: &str)
    ensures
        r@ == trim_seq(s@),
{
    let n = s.unicode_len();
    let mut a: usize = 0;
    assert(s@.skip(0) =~= s@);
    while a < n && char_is_ws(s.get_char(a))
        invariant
            n == s@.len(),
            0 <= a <= n,
            trim_start(s@) == trim_start(s@.skip(a as int)),
        decreases n - a,
    {
        assert(s@.skip(a as int).drop_first() =~= s@.skip(a + 1));
        a = a + 1;
    }
    assert(trim_start(s@) == s@.skip(a as int));
    let mut b: usize = n;
    while b > a && char_is_ws(s.get_char(b - 1))
        invariant
            n == s@.len(),
            0 <= a <= b <= n,
            trim_start(s@) == s@.skip(a as int),
            trim_seq(s@) == trim_end(s@.subrange(a as int, b as int)),
        decreases b - a,
    {
        assert(s@.subrange(a as int, b as int).drop_last() =~= s@.subrange(a as int, b - 1));
        b = b - 1;
    }
    assert(s@.skip(a as int) =~= s@.subrange(a as int, n as int));
    s.substring_char(a, b)
}

/// ASCII upper-case letters mapped to lower case, everything else kept.
pub open spec fn ascii_lower(c: char) -> char {
    if 'A' <= c && c <= 'Z' {
        ((c as u32 + 32) as u8) as char
    } else {
        c
    }
}

pub open spec fn lower_seq(s: Seq<char>) -> Seq<char> {
    s.map_values(|c: char| ascii_lower(c))
}

/// Whether `s` in ASCII lower case reads `word`.
pub fn lower_eq(s: &str, word: &str) -> (r: bool)
    ensures
        r == (lower_seq(s@) == word@),
{
    let n = s.unicode_len();
    let m = word.unicode_len();
    if n != m {
        proof {
            assert(lower_seq(s@).len() != word@.len());
        }
        return false;
    }
    let mut i: usize = 0;
    while i < n
        invariant
            n == s@.len(),
            m == n,
            m == word@.len(),
            0 <= i <= n,
            forall|j: int| 0 <= j < i ==> ascii_lower(s@[j]) == word@[j],
        decreases n - i,
    {
        let c = s.get_char(i);
        let lc = if 'A' <= c && c <= 'Z' {
            (((c as u32) + 32) as u8) as char
        } else {
            c
        };
        if lc != word.get_char(i) {
            proof {
                assert(lower_seq(s@)[i as int] != word@[i as int]);
            }
            return false;
        }
        i = i + 1;
    }
    assert(lower_seq(s@) =~= word@);
    true
}


/// Why a text is not a decimal `u8`, in the terms of the standard library's
/// integer parser.
#[derive(Clone, Copy, Debug, PartialEq, Eq, Structural)]
pub enum IntErrorKind {
    Empty,
    InvalidDigit,
    PosOverflow,
}

impl IntErrorKind {
    pub open spec fn spec_message(self) -> Seq<char> {
        match self {
            IntErrorKind::Empty => "cannot parse integer from empty string"@,
            IntErrorKind::InvalidDigit => "invalid digit found in string"@,
            IntErrorKind::PosOverflow => "number too large to fit in target type"@,
        }
    }

    pub fn message(&self) -> (r: &'static str)
        ensures
            r@ == self.spec_message(),
    {
        match self {
            IntErrorKind::Empty => "cannot parse integer from empty string",
            IntErrorKind::InvalidDigit => "invalid digit found in string",
            IntErrorKind::PosOverflow => "number too large to fit in target type",
        }
    }
}

pub open spec fn is_digit(c: char) -> bool {
    '0' <= c && c <= '9'
}

pub open spec fn digit_value(c: char) -> int {
    c as int - '0' as int
}

/// Reads decimal digits left to right on top of `acc`, failing at the first
/// character that is no digit or at the first digit that takes the value
/// past 255.
pub open spec fn scan_u8(d: Seq<char>, acc: int) -> Result<int, IntErrorKind>
    decreases d.len(),
{
    if d.len() == 0 {
        Ok(acc)
    } else if !is_digit(d[0]) {
        Err(IntErrorKind::InvalidDigit)
    } else if acc * 10 + digit_value(d[0]) > 255 {
        Err(IntErrorKind::PosOverflow)
    } else {
        scan_u8(d.drop_first(), acc * 10 + digit_value(d[0]))
    }
}

/// A decimal `u8`: an optional `+` followed by digits only.
pub open spec fn spec_parse_u8(s: Seq<char>) -> Result<u8, IntErrorKind> {
    if s.len() == 0 {
        Err(IntErrorKind::Empty)
    } else if (s[0] == '+' || s[0] == '-') && s.len() == 1 {
        Err(IntErrorKind::InvalidDigit)
    } else {
        let d = if s[0] == '+' {
            s.drop_first()
        } else {
            s
        };
        match scan_u8(d, 0) {
            Ok(v) => Ok(v as u8),
            Err(e) => Err(e),
        }
    }
}

pub proof fn lemma_scan_u8_bound(d: Seq<char>, acc: int)
    requires
        0 <= acc <= 255,
    ensures
        scan_u8(d, acc) matches Ok(v) ==> 0 <= v <= 255,
    decreases d.len(),
{
    if d.len() > 0 && is_digit(d[0]) && acc * 10 + digit_value(d[0]) <= 255 {
        lemma_scan_u8_bound(d.drop_first(), acc * 10 + digit_value(d[0]));
    }
}

/// Reads a decimal `u8` as the standard library does.
pub fn parse_u8(s: &str) -> (r: Result<u8, IntErrorKind>)
    ensures
        r == spec_parse_u8(s@),
{
    let n = s.unicode_len();
    if n == 0 {
        return Err(IntErrorKind::Empty);
    }
    let c0 = s.get_char(0);
    if (c0 == '+' || c0 == '-') && n == 1 {
        return Err(IntErrorKind::InvalidDigit);
    }
    let mut i: usize = if c0 == '+' {
        1
    } else {
        0
    };
    let ghost d = if c0 == '+' {
        s@.drop_first()
    } else {
        s@
    };
    assert(d =~= s@.skip(i as int));
    let mut acc: u32 = 0;
    proof {
        lemma_scan_u8_bound(d, 0);
    }
    while i < n
        invariant
            n == s@.len(),
            0 <= i <= n,
            acc <= 255,
            scan_u8(d, 0) == scan_u8(s@.skip(i as int), acc as int),
            spec_parse_u8(s@) == (match scan_u8(d, 0) {
                Ok(v) => Ok(v as u8),
                Err(e) => Err(e),
            }),
        decreases n - i,
    {
        let c = s.get_char(i);
        assert(s@.skip(i as int)[0] == c);
        if !('0' <= c && c <= '9') {
            return Err(IntErrorKind::InvalidDigit);
        }
        let v = acc * 10 + ((c as u32) - ('0' as u32));
        if v > 255 {
            return Err(IntErrorKind::PosOverflow);
        }
        assert(s@.skip(i as int).drop_first() =~= s@.skip(i + 1));
        acc = v;
        i = i + 1;
    }
    assert(s@.skip(n as int) =~= Seq::<char>::empty());
    Ok(acc as u8)
}

} // verus!

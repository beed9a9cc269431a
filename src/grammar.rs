//! The lexical grammar of a header: character classes, literals, comments and
//! numbers, stated over `Seq<char>` with positions as `int`, together with the
//! scanners that compute them over `&[char]`.
use vstd::prelude::*;

use crate::text::{push_char, to_chars};

verus! {

/// A class of characters that the scanners skip over.
#[derive(Clone, Copy)]
pub enum CharClass {
    /// A space or a tab.
    HSpace,
    /// A space, tab, carriage return or line feed.
    Space,
    /// `0` to `9`.
    Digit,
    /// `0` to `9`, `a` to `f`, `A` to `F`.
    HexDigit,
    /// An ASCII letter, digit or `_`.
    Ident,
    /// Anything but a line feed.
    Line,
}

pub open spec fn is_digit(c: char) -> bool {
    '0' <= c && c <= '9'
}

pub open spec fn is_letter(c: char) -> bool {
    ('a' <= c && c <= 'z') || ('A' <= c && c <= 'Z')
}

/// The characters that may start an identifier.
pub open spec fn is_ident_start(c: char) -> bool {
    is_letter(c) || c == '_'
}

pub open spec fn in_class(c: char, k: CharClass) -> bool {
    match k {
        CharClass::HSpace => c == ' ' || c == '\t',
        CharClass::Space => c == ' ' || c == '\t' || c == '\n' || c == '\r',
        CharClass::Digit => is_digit(c),
        CharClass::HexDigit => is_digit(c) || ('a' <= c && c <= 'f') || ('A' <= c && c <= 'F'),
        CharClass::Ident => is_ident_start(c) || is_digit(c),
        CharClass::Line => c != '\n',
    }
}

/// The position just past the longest run of characters of class `k` that
/// starts at `i`.
pub open spec fn run_end(s: Seq<char>, i: int, k: CharClass) -> int
    decreases s.len() - i,
{
    if 0 <= i < s.len() && in_class(s[i], k) {
        run_end(s, i + 1, k)
    } else {
        i
    }
}

/// `t` occurs in `s` at position `i`.
pub open spec fn starts_at(s: Seq<char>, i: int, t: Seq<char>) -> bool {
    0 <= i && i + t.len() <= s.len() && s.subrange(i, i + t.len()) == t
}

/// The first position at or after `k` where `*/` occurs.
pub open spec fn find_close(s: Seq<char>, k: int) -> Option<int>
    decreases s.len() - k,
{
    if k < 0 || k + 1 >= s.len() {
        None
    } else if s[k] == '*' && s[k + 1] == '/' {
        Some(k)
    } else {
        find_close(s, k + 1)
    }
}

pub open spec fn comment_open() -> Seq<char> {
    seq!['/', '*']
}

/// Where the comment that opens at `i` closes: the position of its `*/`.
/// Its text lies between `i + 2` and that position.
pub open spec fn comment_at(s: Seq<char>, i: int) -> Option<int> {
    if starts_at(s, i, comment_open()) {
        find_close(s, i + 2)
    } else {
        None
    }
}

/// The position after all whitespace and closed comments that follow `i`.
pub open spec fn skip_space(s: Seq<char>, i: int) -> int
    decreases s.len() - i,
{
    if 0 <= i < s.len() && in_class(s[i], CharClass::Space) {
        skip_space(s, i + 1)
    } else {
        match comment_at(s, i) {
            // `k` always lies past `i`; the test keeps the recursion visibly
            // decreasing.
            Some(k) => if i < k && k + 2 <= s.len() {
                skip_space(s, k + 2)
            } else {
                i
            },
            None => i,
        }
    }
}

pub open spec fn digit_value(c: char) -> int {
    if is_digit(c) {
        c as int - '0' as int
    } else if 'a' <= c && c <= 'f' {
        c as int - 'a' as int + 10
    } else {
        c as int - 'A' as int + 10
    }
}

/// The number that the digits `d` write in base `base`.
pub open spec fn digits_value(d: Seq<char>, base: int) -> int
    decreases d.len(),
{
    if d.len() == 0 {
        0
    } else {
        base * digits_value(d.drop_last(), base) + digit_value(d.last())
    }
}

pub proof fn lemma_run_end(s: Seq<char>, i: int, k: CharClass)
    requires
        0 <= i <= s.len(),
    ensures
        i <= run_end(s, i, k) <= s.len(),
        forall|j: int| i <= j < run_end(s, i, k) ==> in_class(#[trigger] s[j], k),
        run_end(s, i, k) == s.len() || !in_class(s[run_end(s, i, k)], k),
    decreases s.len() - i,
{
    if i < s.len() && in_class(s[i], k) {
        lemma_run_end(s, i + 1, k);
    }
}

pub proof fn lemma_find_close(s: Seq<char>, k: int)
    requires
        0 <= k,
    ensures
        find_close(s, k) matches Some(j) ==> k <= j && j + 2 <= s.len(),
    decreases s.len() - k,
{
    if k + 1 < s.len() && !(s[k] == '*' && s[k + 1] == '/') {
        lemma_find_close(s, k + 1);
    }
}

pub fn char_in_class(c: char, k: CharClass) -> (r: bool)
    ensures
        r == in_class(c, k),
{
    match k {
        CharClass::HSpace => c == ' ' || c == '\t',
        CharClass::Space => c == ' ' || c == '\t' || c == '\n' || c == '\r',
        CharClass::Digit => '0' <= c && c <= '9',
        CharClass::HexDigit => ('0' <= c && c <= '9') || ('a' <= c && c <= 'f') || ('A' <= c
            && c <= 'F'),
        CharClass::Ident => ('a' <= c && c <= 'z') || ('A' <= c && c <= 'Z') || c == '_' || ('0'
            <= c && c <= '9'),
        CharClass::Line => c != '\n',
    }
}

/// Scans the run of characters of class `k` that starts at `i`.
pub fn scan(s: &[char], i: usize, k: CharClass) -> (r: usize)
    requires
        i <= s@.len(),
    ensures
        r == run_end(s@, i as int, k),
        i <= r <= s@.len(),
{
    let mut j: usize = i;
    while j < s.len() && char_in_class(s[j], k)
        invariant
            i <= j <= s@.len(),
            run_end(s@, i as int, k) == run_end(s@, j as int, k),
        decreases s@.len() - j,
    {
        j = j + 1;
    }
    j
}

/// Whether `t` occurs in `s` at position `i`.
pub fn starts_with_at(s: &[char], i: usize, t: &[char]) -> (r: bool)
    ensures
        r == starts_at(s@, i as int, t@),
{
    if i > s.len() || t.len() > s.len() - i {
        return false;
    }
    let mut m: usize = 0;
    while m < t.len()
        invariant
            m <= t@.len(),
            i + t@.len() <= s@.len() <= usize::MAX,
            s@.subrange(i as int, i + m) == t@.subrange(0, m as int),
        decreases t@.len() - m,
    {
        if s[i + m] != t[m] {
            assert(s@.subrange(i as int, i + t@.len())[m as int] != t@[m as int]);
            return false;
        }
        assert(s@.subrange(i as int, i + m + 1) =~= t@.subrange(0, m + 1));
        m = m + 1;
    }
    assert(t@.subrange(0, m as int) =~= t@);
    true
}

/// Finds the first `*/` at or after `k`.
pub fn find_comment_close(s: &[char], k: usize) -> (r: Option<usize>)
    ensures
        r is Some == find_close(s@, k as int) is Some,
        r matches Some(j) ==> find_close(s@, k as int) == Some(j as int) && k <= j && j + 2
            <= s@.len(),
{
    proof {
        lemma_find_close(s@, k as int);
    }
    let mut j: usize = k;
    while j < s.len() && j + 1 < s.len()
        invariant
            k <= j,
            find_close(s@, k as int) == find_close(s@, j as int),
        decreases s@.len() - j,
    {
        if s[j] == '*' && s[j + 1] == '/' {
            return Some(j);
        }
        j = j + 1;
    }
    None
}

pub open spec fn power(b: int, n: nat) -> int
    decreases n,
{
    if n == 0 {
        1
    } else {
        b * power(b, (n - 1) as nat)
    }
}

/// The hexadecimal number at `i`: its digits run as far as they go, but to
/// eight digits at most, so that the value always fits in a `u32`.
pub open spec fn hex_number(s: Seq<char>, i: int) -> Option<(int, int)> {
    let e = if run_end(s, i, CharClass::HexDigit) > i + 8 {
        i + 8
    } else {
        run_end(s, i, CharClass::HexDigit)
    };
    if 0 <= i && e > i {
        Some((digits_value(s.subrange(i, e), 16), e))
    } else {
        None
    }
}

/// The decimal number at `i`: all the digits that follow, whose value must
/// fit in a `u32`.
pub open spec fn dec_number(s: Seq<char>, i: int) -> Option<(int, int)> {
    let e = run_end(s, i, CharClass::Digit);
    if 0 <= i && e > i && digits_value(s.subrange(i, e), 10) <= u32::MAX {
        Some((digits_value(s.subrange(i, e), 10), e))
    } else {
        None
    }
}

proof fn lemma_power_16(n: nat)
    requires
        n <= 8,
    ensures
        1 <= power(16, n) <= 4294967296,
{
    reveal_with_fuel(power, 9);
    assert(n == 0 || n == 1 || n == 2 || n == 3 || n == 4 || n == 5 || n == 6 || n == 7 || n
        == 8);
}

fn digit_of(c: char) -> (r: u64)
    requires
        in_class(c, CharClass::HexDigit),
    ensures
        r == digit_value(c),
        r < 16,
        is_digit(c) ==> r < 10,
{
    if '0' <= c && c <= '9' {
        (c as u32 - '0' as u32) as u64
    } else if 'a' <= c && c <= 'f' {
        (c as u32 - 'a' as u32 + 10) as u64
    } else {
        (c as u32 - 'A' as u32 + 10) as u64
    }
}

/// Reads a hexadecimal number of at most eight digits at `i`.
pub fn hex_u32(s: &[char], i: usize) -> (r: Option<(u32, usize)>)
    requires
        i <= s@.len(),
    ensures
        r is Some == hex_number(s@, i as int) is Some,
        r matches Some((v, e)) ==> hex_number(s@, i as int) == Some((v as int, e as int)),
{
    let end = scan(s, i, CharClass::HexDigit);
    proof {
        lemma_run_end(s@, i as int, CharClass::HexDigit);
    }
    let e = if end - i > 8 {
        i + 8
    } else {
        end
    };
    if e == i {
        return None;
    }
    let mut acc: u64 = 0;
    let mut j: usize = i;
    while j < e
        invariant
            i <= j <= e <= s@.len(),
            e - i <= 8,
            e <= run_end(s@, i as int, CharClass::HexDigit),
            forall|m: int| i <= m < run_end(s@, i as int, CharClass::HexDigit) ==> in_class(
                #[trigger] s@[m],
                CharClass::HexDigit,
            ),
            acc == digits_value(s@.subrange(i as int, j as int), 16),
            acc < power(16, (j - i) as nat),
        decreases e - j,
    {
        proof {
            lemma_power_16((j - i) as nat);
        }
        let d = digit_of(s[j]);
        assert(s@.subrange(i as int, j + 1).drop_last() =~= s@.subrange(i as int, j as int));
        acc = acc * 16 + d;
        j = j + 1;
    }
    proof {
        lemma_power_16((j - i) as nat);
    }
    Some((acc as u32, e))
}

/// Reads a decimal number at `i`, if it fits in a `u32`.
pub fn dec_u32(s: &[char], i: usize) -> (r: Option<(u32, usize)>)
    requires
        i <= s@.len(),
    ensures
        r is Some == dec_number(s@, i as int) is Some,
        r matches Some((v, e)) ==> dec_number(s@, i as int) == Some((v as int, e as int)),
{
    let e = scan(s, i, CharClass::Digit);
    proof {
        lemma_run_end(s@, i as int, CharClass::Digit);
    }
    if e == i {
        return None;
    }
    let cap: u64 = 4294967296;
    // `acc` is the value of the digits read so far, held at `cap` once it
    // no longer fits in a `u32`.
    let mut acc: u64 = 0;
    let mut j: usize = i;
    while j < e
        invariant
            i <= j <= e <= s@.len(),
            e == run_end(s@, i as int, CharClass::Digit),
            forall|m: int| i <= m < e ==> in_class(#[trigger] s@[m], CharClass::Digit),
            cap == 4294967296,
            digits_value(s@.subrange(i as int, j as int), 10) >= 0,
            acc == if digits_value(s@.subrange(i as int, j as int), 10) >= cap {
                cap as int
            } else {
                digits_value(s@.subrange(i as int, j as int), 10)
            },
        decreases e - j,
    {
        let d = digit_of(s[j]);
        assert(s@.subrange(i as int, j + 1).drop_last() =~= s@.subrange(i as int, j as int));
        if acc >= cap {
            acc = cap;
        } else {
            acc = acc * 10 + d;
            if acc > cap {
                acc = cap;
            }
        }
        j = j + 1;
    }
    if acc >= cap {
        None
    } else {
        Some((acc as u32, e))
    }
}

/// Every character of `s[i..j]` is of class `k`.
pub open spec fn all_in_class(s: Seq<char>, i: int, j: int, k: CharClass) -> bool {
    forall|m: int| i <= m < j ==> in_class(#[trigger] s[m], k)
}

pub proof fn lemma_run_end_exact(s: Seq<char>, i: int, j: int, k: CharClass)
    requires
        0 <= i <= j <= s.len(),
        all_in_class(s, i, j, k),
        j == s.len() || !in_class(s[j], k),
    ensures
        run_end(s, i, k) == j,
    decreases j - i,
{
    if i < j {
        lemma_run_end_exact(s, i + 1, j, k);
    }
}

pub proof fn lemma_run_end_reaches(s: Seq<char>, i: int, j: int, k: CharClass)
    requires
        0 <= i <= j <= s.len(),
        all_in_class(s, i, j, k),
    ensures
        run_end(s, i, k) >= j,
    decreases j - i,
{
    lemma_run_end(s, i, k);
    if i < j {
        lemma_run_end_reaches(s, i + 1, j, k);
    }
}

pub proof fn lemma_skip_blanks(s: Seq<char>, i: int, j: int)
    requires
        0 <= i <= j <= s.len(),
        all_in_class(s, i, j, CharClass::Space),
    ensures
        skip_space(s, i) == skip_space(s, j),
    decreases j - i,
{
    if i < j {
        lemma_skip_blanks(s, i + 1, j);
    }
}

/// The decimal digits of `n`, without leading zeros.
pub open spec fn decimal(n: nat) -> Seq<char>
    decreases n,
{
    if n < 10 {
        seq![digit_char(n)]
    } else {
        decimal(n / 10).push(digit_char(n % 10))
    }
}

pub open spec fn digit_char(d: nat) -> char {
    seq!['0', '1', '2', '3', '4', '5', '6', '7', '8', '9'][d as int]
}

pub proof fn lemma_digit_char(d: nat)
    requires
        d < 10,
    ensures
        is_digit(digit_char(d)),
        digit_value(digit_char(d)) == d,
{
    assert(d == 0 || d == 1 || d == 2 || d == 3 || d == 4 || d == 5 || d == 6 || d == 7 || d == 8
        || d == 9);
}

pub proof fn lemma_decimal(n: nat)
    ensures
        decimal(n).len() >= 1,
        all_in_class(decimal(n), 0, decimal(n).len() as int, CharClass::Digit),
        digits_value(decimal(n), 10) == n,
    decreases n,
{
    if n < 10 {
        lemma_digit_char(n);
        assert(decimal(n).drop_last() =~= Seq::<char>::empty());
        assert(digits_value(decimal(n), 10) == 10 * digits_value(Seq::<char>::empty(), 10)
            + digit_value(digit_char(n)));
    } else {
        lemma_decimal(n / 10);
        lemma_digit_char(n % 10);
        assert(decimal(n).drop_last() =~= decimal(n / 10));
        assert(decimal(n).last() == digit_char(n % 10));
        assert(digits_value(decimal(n), 10) == 10 * digits_value(decimal(n / 10), 10)
            + digit_value(digit_char(n % 10)));
    }
}

/// The lower-case hexadecimal digits of `n`, without leading zeros.
pub open spec fn hex_digits(n: nat) -> Seq<char>
    decreases n,
{
    if n < 16 {
        seq![hex_digit_char(n)]
    } else {
        hex_digits(n / 16).push(hex_digit_char(n % 16))
    }
}

pub open spec fn hex_digit_char(d: nat) -> char {
    seq!['0', '1', '2', '3', '4', '5', '6', '7', '8', '9', 'a', 'b', 'c', 'd', 'e', 'f'][d as int]
}

pub proof fn lemma_hex_digit_char(d: nat)
    requires
        d < 16,
    ensures
        in_class(hex_digit_char(d), CharClass::HexDigit),
        digit_value(hex_digit_char(d)) == d,
{
    assert(d == 0 || d == 1 || d == 2 || d == 3 || d == 4 || d == 5 || d == 6 || d == 7 || d == 8
        || d == 9 || d == 10 || d == 11 || d == 12 || d == 13 || d == 14 || d == 15);
}

pub proof fn lemma_hex_digits(n: nat, k: nat)
    requires
        1 <= k,
        n < power(16, k),
    ensures
        1 <= hex_digits(n).len() <= k,
        all_in_class(hex_digits(n), 0, hex_digits(n).len() as int, CharClass::HexDigit),
        digits_value(hex_digits(n), 16) == n,
    decreases n,
{
    if n < 16 {
        lemma_hex_digit_char(n);
        assert(hex_digits(n).drop_last() =~= Seq::<char>::empty());
        assert(digits_value(hex_digits(n), 16) == 16 * digits_value(Seq::<char>::empty(), 16)
            + digit_value(hex_digit_char(n)));
    } else {
        assert(k >= 2) by {
            if k == 1 {
                assert(power(16, 1) == 16 * power(16, 0));
            }
        }
        assert(power(16, k) == 16 * power(16, (k - 1) as nat));
        lemma_hex_digits(n / 16, (k - 1) as nat);
        lemma_hex_digit_char(n % 16);
        assert(hex_digits(n).drop_last() =~= hex_digits(n / 16));
        assert(hex_digits(n).last() == hex_digit_char(n % 16));
        assert(digits_value(hex_digits(n), 16) == 16 * digits_value(hex_digits(n / 16), 16)
            + digit_value(hex_digit_char(n % 16)));
    }
}

pub proof fn lemma_u32_hex_digits(n: u32)
    ensures
        1 <= hex_digits(n as nat).len() <= 8,
        all_in_class(hex_digits(n as nat), 0, hex_digits(n as nat).len() as int, CharClass::HexDigit),
        digits_value(hex_digits(n as nat), 16) == n,
{
    reveal_with_fuel(power, 9);
    assert(power(16, 8) == 4294967296);
    lemma_hex_digits(n as nat, 8);
}

fn hex_digit_to_char(d: u32) -> (r: char)
    requires
        d < 16,
    ensures
        r == hex_digit_char(d as nat),
{
    if d < 10 {
        let c = digit_to_char(d);
        assert(hex_digit_char(d as nat) == digit_char(d as nat));
        c
    } else if d == 10 {
        'a'
    } else if d == 11 {
        'b'
    } else if d == 12 {
        'c'
    } else if d == 13 {
        'd'
    } else if d == 14 {
        'e'
    } else {
        'f'
    }
}

/// Appends the lower-case hexadecimal digits of `n`.
pub fn push_hex(out: &mut String, n: u32)
    ensures
        final(out)@ == old(out)@ + hex_digits(n as nat),
    decreases n,
{
    if n >= 16 {
        push_hex(out, n / 16);
    }
    push_char(out, hex_digit_to_char(n % 16));
    assert(final(out)@ =~= old(out)@ + hex_digits(n as nat));
}

fn digit_to_char(d: u32) -> (r: char)
    requires
        d < 10,
    ensures
        r == digit_char(d as nat),
{
    if d == 0 {
        '0'
    } else if d == 1 {
        '1'
    } else if d == 2 {
        '2'
    } else if d == 3 {
        '3'
    } else if d == 4 {
        '4'
    } else if d == 5 {
        '5'
    } else if d == 6 {
        '6'
    } else if d == 7 {
        '7'
    } else if d == 8 {
        '8'
    } else {
        '9'
    }
}

/// Appends the decimal digits of `n`.
pub fn push_decimal(out: &mut String, n: u32)
    ensures
        final(out)@ == old(out)@ + decimal(n as nat),
    decreases n,
{
    if n >= 10 {
        push_decimal(out, n / 10);
    }
    push_char(out, digit_to_char(n % 10));
    assert(final(out)@ =~= old(out)@ + decimal(n as nat));
}

/// `c` with each run of whitespace made one space, and none at either end.
pub open spec fn collapse(c: Seq<char>) -> Seq<char>
    decreases c.len(),
{
    if c.len() == 0 {
        Seq::empty()
    } else {
        let r = collapse(c.drop_last());
        let x = c.last();
        if in_class(x, CharClass::Space) {
            r
        } else if c.len() >= 2 && in_class(c[c.len() - 2], CharClass::Space) && r.len() > 0 {
            r.push(' ').push(x)
        } else {
            r.push(x)
        }
    }
}

/// `t` holds no line feed, tab or carriage return, no two spaces in a row,
/// and no space at either end.
pub open spec fn is_single_spaced(t: Seq<char>) -> bool {
    &&& forall|m: int| 0 <= m < t.len() ==> (#[trigger] t[m] == ' ' || !in_class(t[m], CharClass::Space))
    &&& forall|m: int| 0 <= m < t.len() - 1 ==> !(#[trigger] t[m] == ' ' && t[m + 1] == ' ')
    &&& t.len() > 0 ==> t[0] != ' ' && t.last() != ' '
}

/// Collapsing whitespace leaves a single-spaced text.
pub proof fn lemma_collapse_single_spaced(c: Seq<char>)
    ensures
        is_single_spaced(collapse(c)),
    decreases c.len(),
{
    if c.len() > 0 {
        lemma_collapse_single_spaced(c.drop_last());
        let r = collapse(c.drop_last());
        let t = collapse(c);
        if !in_class(c.last(), CharClass::Space) {
            if c.len() >= 2 && in_class(c[c.len() - 2], CharClass::Space) && r.len() > 0 {
                assert(t =~= r.push(' ').push(c.last()));
                assert(t[r.len() - 1] == r.last());
            } else {
                assert(t =~= r.push(c.last()));
                if r.len() > 0 {
                    assert(t[r.len() - 1] == r.last());
                }
            }
        }
    }
}

/// The characters `s[from..to]` with their whitespace collapsed.
pub fn collapse_range(s: &[char], from: usize, to: usize) -> (r: String)
    requires
        from <= to <= s@.len(),
    ensures
        r@ == collapse(s@.subrange(from as int, to as int)),
{
    let ghost c = s@.subrange(from as int, to as int);
    let mut out = String::new();
    let mut any = false;
    let mut i: usize = from;
    while i < to
        invariant
            from <= i <= to <= s@.len(),
            c == s@.subrange(from as int, to as int),
            out@ == collapse(c.subrange(0, i - from)),
            any == (out@.len() > 0),
        decreases to - i,
    {
        let x = s[i];
        let ghost pre = c.subrange(0, i - from + 1);
        assert(pre.drop_last() =~= c.subrange(0, i - from));
        assert(pre.last() == x);
        if !char_in_class(x, CharClass::Space) {
            if i > from && char_in_class(s[i - 1], CharClass::Space) && any {
                assert(pre[pre.len() - 2] == s@[i - 1]);
                push_char(&mut out, ' ');
            }
            push_char(&mut out, x);
            any = true;
        }
        i = i + 1;
    }
    assert(c.subrange(0, i - from) =~= c);
    out
}

/// Collapses the whitespace of a comment: each run of whitespace, line feeds
/// included, becomes one space, and none is left at either end.
pub fn normalize_comment(c: &str) -> (r: String)
    ensures
        r@ == collapse(c@),
{
    let v = to_chars(c);
    let r = collapse_range(v.as_slice(), 0, v.len());
    assert(v@.subrange(0, v@.len() as int) =~= c@);
    r
}

/// `t` holds a line feed.
pub open spec fn has_line_feed(t: Seq<char>) -> bool {
    exists|m: int| 0 <= m < t.len() && t[m] == '\n'
}

} // verus!

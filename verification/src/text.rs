//! Characters, header lines and numbers, as RTSP messages write them.

use vstd::prelude::*;
use vstd::slice::*;
use vstd::string::*;

verus! {

/// Unicode's `White_Space` property.
pub open spec fn is_space(c: char) -> bool {
    let n = c as u32;
    ||| 0x09 <= n <= 0x0d
    ||| n == 0x20
    ||| n == 0x85
    ||| n == 0xa0
    ||| n == 0x1680
    ||| 0x2000 <= n <= 0x200a
    ||| n == 0x2028
    ||| n == 0x2029
    ||| n == 0x202f
    ||| n == 0x205f
    ||| n == 0x3000
}

/// `s` without the white space that it begins with.
pub open spec fn trim_start(s: Seq<char>) -> Seq<char>
    decreases s.len(),
{
    if s.len() > 0 && is_space(s[0]) {
        trim_start(s.drop_first())
    } else {
        s
    }
}

/// `s` without the white space that it ends in.
pub open spec fn trim_end(s: Seq<char>) -> Seq<char>
    decreases s.len(),
{
    if s.len() > 0 && is_space(s.last()) {
        trim_end(s.drop_last())
    } else {
        s
    }
}

/// `s` without the white space at either end.
pub open spec fn trim(s: Seq<char>) -> Seq<char> {
    trim_end(trim_start(s))
}

/// The place of the first `c` in `s`; the length of `s` where there is none.
pub open spec fn find(s: Seq<char>, c: char) -> int
    decreases s.len(),
{
    if s.len() == 0 || s[0] == c {
        0
    } else {
        1 + find(s.drop_first(), c)
    }
}

/// The part of `s` before the first `c`; the whole of `s` where there is none.
pub open spec fn before(s: Seq<char>, c: char) -> Seq<char> {
    s.take(find(s, c))
}

/// The part of `s` after the first `c`; nothing where there is none.
pub open spec fn after(s: Seq<char>, c: char) -> Seq<char> {
    if find(s, c) < s.len() {
        s.skip(find(s, c) + 1)
    } else {
        Seq::empty()
    }
}

/// The parts of `s` between the separators `c`: always one more than there are separators.
pub open spec fn split(s: Seq<char>, c: char) -> Seq<Seq<char>>
    decreases s.len(),
{
    if s.len() == 0 || find(s, c) >= s.len() || find(s, c) < 0 {
        seq![s]
    } else {
        seq![before(s, c)] + split(s.skip(find(s, c) + 1), c)
    }
}

/// `s` without one carriage return that it ends in.
pub open spec fn strip_cr(s: Seq<char>) -> Seq<char> {
    if s.len() > 0 && s.last() == '\r' {
        s.drop_last()
    } else {
        s
    }
}

/// The lines of `s`, without their line ends: `"\n"`, or `"\r\n"`. The last line needs none.
pub open spec fn lines(s: Seq<char>) -> Seq<Seq<char>>
    decreases s.len(),
{
    if s.len() == 0 {
        Seq::empty()
    } else if find(s, '\n') >= s.len() || find(s, '\n') < 0 {
        seq![s]
    } else {
        seq![strip_cr(before(s, '\n'))] + lines(s.skip(find(s, '\n') + 1))
    }
}

/// Whether `s` begins with `p`.
pub open spec fn starts_with(s: Seq<char>, p: Seq<char>) -> bool {
    p.len() <= s.len() && s.take(p.len() as int) == p
}

/// Whether `p` occurs in `s`.
pub open spec fn contains(s: Seq<char>, p: Seq<char>) -> bool
    decreases s.len(),
{
    starts_with(s, p) || (s.len() > 0 && contains(s.drop_first(), p))
}

/// `c` in lower case where it is an ASCII letter.
pub open spec fn ascii_lower(c: char) -> char {
    if 'A' <= c && c <= 'Z' {
        (c as u32 + 32) as char
    } else {
        c
    }
}

/// Whether `s` begins with `p`, a lower-case ASCII text, in whatever case `s` writes it.
pub open spec fn starts_with_any_case(s: Seq<char>, p: Seq<char>) -> bool {
    &&& p.len() <= s.len()
    &&& forall|i: int| 0 <= i < p.len() ==> ascii_lower(#[trigger] s[i]) == p[i]
}

/// The decimal digit `d`, which is below 10.
pub open spec fn digit(d: int) -> char {
    (48 + d) as char
}

/// `n` in decimal, without leading zeros.
pub open spec fn decimal(n: nat) -> Seq<char>
    decreases n,
{
    if n < 10 {
        seq![digit(n as int)]
    } else {
        decimal(n / 10).push(digit((n % 10) as int))
    }
}

/// Whether `c` is a decimal digit.
pub open spec fn is_digit(c: char) -> bool {
    '0' <= c && c <= '9'
}

/// Whether `s` is made of decimal digits alone.
pub open spec fn all_digits(s: Seq<char>) -> bool {
    forall|i: int| 0 <= i < s.len() ==> is_digit(#[trigger] s[i])
}

/// The number that the digits `s` write in decimal.
pub open spec fn digits_value(s: Seq<char>) -> nat
    decreases s.len(),
{
    if s.len() == 0 {
        0
    } else {
        digits_value(s.drop_last()) * 10 + (s.last() as u32 - 48) as nat
    }
}

/// `s` without one plus sign in front of something.
pub open spec fn without_plus(s: Seq<char>) -> Seq<char> {
    if s.len() > 1 && s[0] == '+' {
        s.drop_first()
    } else {
        s
    }
}

/// The number that `s` writes: decimal digits, after a plus sign perhaps, of a value up to `max`.
pub open spec fn parse_number(s: Seq<char>, max: nat) -> Option<nat> {
    let digits = without_plus(s);
    if digits.len() > 0 && all_digits(digits) && digits_value(digits) <= max {
        Some(digits_value(digits))
    } else {
        None
    }
}

/// The upper-case hexadecimal digit `d`, which is below 16.
pub open spec fn hex_digit(d: int) -> char {
    if d < 10 {
        (48 + d) as char
    } else {
        (55 + d) as char
    }
}

/// The last `width` hexadecimal digits of `n`, in upper case, zeros in front where it has fewer.
pub open spec fn hex(n: nat, width: nat) -> Seq<char>
    decreases width,
{
    if width == 0 {
        Seq::empty()
    } else {
        hex(n / 16, (width - 1) as nat).push(hex_digit((n % 16) as int))
    }
}

/// `find` is a place in `s`, or its length; no character before it is `c`.
pub proof fn lemma_find(s: Seq<char>, c: char)
    ensures
        0 <= find(s, c) <= s.len(),
        forall|i: int| 0 <= i < find(s, c) ==> s[i] != c,
        find(s, c) < s.len() ==> s[find(s, c)] == c,
    decreases s.len(),
{
    if s.len() > 0 && s[0] != c {
        let rest = s.drop_first();
        lemma_find(rest, c);
        assert forall|i: int| 0 <= i < find(s, c) implies s[i] != c by {
            if i > 0 {
                assert(s[i] == rest[i - 1]);
            }
        }
    }
}

/// The place before which no character is `c`, and at which one stands, is that of `find`.
pub proof fn lemma_find_at(s: Seq<char>, c: char, k: int)
    requires
        0 <= k <= s.len(),
        forall|i: int| 0 <= i < k ==> s[i] != c,
        k < s.len() ==> s[k] == c,
    ensures
        find(s, c) == k,
{
    lemma_find(s, c);
    if find(s, c) < k {
        assert(s[find(s, c)] == c);
    }
    if k < find(s, c) {
        assert(s[k] == c);
    }
}

/// The characters of `s`.
pub fn chars_of(s: &str) -> (r: Vec<char>)
    ensures
        r@ == s@,
{
    let mut out: Vec<char> = Vec::new();
    for c in it: s.chars()
        invariant
            out@ == it.seq().take(it.index()),
            it.seq() == s@,
    {
        out.push(c);
    }
    out
}

/// The text of the characters `s`.
pub fn string_of(s: &[char]) -> (r: String)
    ensures
        r@ == s@,
{
    let mut out: String = String::new();
    let mut i: usize = 0;
    assert(s@.take(0) == Seq::<char>::empty());
    while i < s.len()
        invariant
            i <= s@.len(),
            out@ == s@.take(i as int),
        decreases s@.len() - i,
    {
        out.push(s[i]);
        assert(s@.take(i + 1) == s@.take(i as int).push(s@[i as int]));
        i = i + 1;
    }
    assert(s@.take(i as int) == s@);
    out
}

/// The place of the first `c` in `s`; the length of `s` where there is none.
pub fn find_char(s: &[char], c: char) -> (r: usize)
    ensures
        r == find(s@, c),
        r <= s@.len(),
{
    let mut i: usize = 0;
    while i < s.len() && s[i] != c
        invariant
            i <= s@.len(),
            forall|j: int| 0 <= j < i ==> s@[j] != c,
        ensures
            i <= s@.len(),
            forall|j: int| 0 <= j < i ==> s@[j] != c,
            i < s@.len() ==> s@[i as int] == c,
        decreases s@.len() - i,
    {
        i = i + 1;
    }
    proof {
        lemma_find_at(s@, c, i as int);
    }
    i
}

/// Whether `c` is white space.
pub fn is_whitespace(c: char) -> (r: bool)
    ensures
        r == is_space(c),
{
    let n: u32 = c as u32;
    (0x09 <= n && n <= 0x0d) || n == 0x20 || n == 0x85 || n == 0xa0 || n == 0x1680 || (0x2000 <= n
        && n <= 0x200a) || n == 0x2028 || n == 0x2029 || n == 0x202f || n == 0x205f || n == 0x3000
}

/// `s` without the white space at either end.
pub fn trimmed(s: &[char]) -> (r: &[char])
    ensures
        r@ == trim(s@),
{
    let mut i: usize = 0;
    assert(s@.skip(0) == s@);
    while i < s.len() && is_whitespace(s[i])
        invariant
            i <= s@.len(),
            trim_start(s@) == trim_start(s@.skip(i as int)),
        ensures
            i <= s@.len(),
            trim_start(s@) == s@.skip(i as int),
        decreases s@.len() - i,
    {
        assert(s@.skip(i as int).drop_first() == s@.skip(i + 1));
        i = i + 1;
    }
    let mut j: usize = s.len();
    assert(s@.subrange(i as int, j as int) == s@.skip(i as int));
    while j > i && is_whitespace(s[j - 1])
        invariant
            i <= j <= s@.len(),
            trim(s@) == trim_end(s@.subrange(i as int, j as int)),
        ensures
            i <= j <= s@.len(),
            trim(s@) == s@.subrange(i as int, j as int),
        decreases j,
    {
        assert(s@.subrange(i as int, j as int).drop_last() == s@.subrange(i as int, j - 1));
        j = j - 1;
    }
    slice_subrange(s, i, j)
}

/// Whether `s` begins with `p`.
pub fn has_prefix(s: &[char], p: &[char]) -> (r: bool)
    ensures
        r == starts_with(s@, p@),
{
    if s.len() < p.len() {
        return false;
    }
    let mut i: usize = 0;
    while i < p.len()
        invariant
            i <= p@.len() <= s@.len(),
            forall|j: int| 0 <= j < i ==> s@[j] == p@[j],
        decreases p@.len() - i,
    {
        if s[i] != p[i] {
            assert(s@.take(p@.len() as int)[i as int] != p@[i as int]);
            return false;
        }
        i = i + 1;
    }
    assert(s@.take(p@.len() as int) == p@);
    true
}

/// Whether `s` begins with `p`, a lower-case ASCII text, in whatever case `s` writes it.
pub fn has_prefix_any_case(s: &[char], p: &[char]) -> (r: bool)
    ensures
        r == starts_with_any_case(s@, p@),
{
    if s.len() < p.len() {
        return false;
    }
    let mut i: usize = 0;
    while i < p.len()
        invariant
            i <= p@.len() <= s@.len(),
            forall|j: int| 0 <= j < i ==> ascii_lower(#[trigger] s@[j]) == p@[j],
        decreases p@.len() - i,
    {
        if lower(s[i]) != p[i] {
            return false;
        }
        i = i + 1;
    }
    true
}

/// `c` in lower case where it is an ASCII letter.
fn lower(c: char) -> (r: char)
    ensures
        r == ascii_lower(c),
{
    if 'A' <= c && c <= 'Z' {
        (c as u8 + 32) as char
    } else {
        c
    }
}

/// Whether `p` occurs in `s`.
pub fn contains_text(s: &[char], p: &[char]) -> (r: bool)
    ensures
        r == contains(s@, p@),
{
    let mut i: usize = 0;
    assert(s@.skip(0) == s@);
    loop
        invariant
            i <= s@.len(),
            contains(s@, p@) == contains(s@.skip(i as int), p@),
        decreases s@.len() - i,
    {
        if has_prefix(slice_subrange(s, i, s.len()), p) {
            assert(s@.subrange(i as int, s@.len() as int) == s@.skip(i as int));
            return true;
        }
        assert(s@.subrange(i as int, s@.len() as int) == s@.skip(i as int));
        if i == s.len() {
            return false;
        }
        assert(s@.skip(i as int).drop_first() == s@.skip(i + 1));
        i = i + 1;
    }
}

/// The number that `s` writes, where it is one up to `max`.
pub fn number(s: &[char], max: u64) -> (r: Option<u64>)
    ensures
        r is Some <==> parse_number(s@, max as nat) is Some,
        r matches Some(n) ==> parse_number(s@, max as nat) == Some(n as nat),
{
    let digits: &[char] = if s.len() > 1 && s[0] == '+' {
        slice_subrange(s, 1, s.len())
    } else {
        s
    };
    assert(digits@ == without_plus(s@));
    if digits.len() == 0 {
        return None;
    }
    let mut n: u64 = 0;
    let mut over: bool = false;
    let mut i: usize = 0;
    while i < digits.len()
        invariant
            i <= digits@.len(),
            forall|j: int| 0 <= j < i ==> is_digit(#[trigger] digits@[j]),
            over == (digits_value(digits@.take(i as int)) > max),
            !over ==> n == digits_value(digits@.take(i as int)),
            digits@ == without_plus(s@),
        decreases digits@.len() - i,
    {
        let c: char = digits[i];
        if !('0' <= c && c <= '9') {
            return None;
        }
        let d: u64 = (c as u32 - 48) as u64;
        assert(digits@.take(i + 1).drop_last() == digits@.take(i as int));
        if !over {
            let wide: u128 = n as u128 * 10 + d as u128;
            if wide > max as u128 {
                over = true;
            } else {
                n = wide as u64;
            }
        }
        i = i + 1;
    }
    assert(digits@.take(i as int) == digits@);
    if over {
        None
    } else {
        Some(n)
    }
}

/// Appends `n` to `out` in decimal.
pub fn push_decimal(out: &mut String, n: u64)
    ensures
        final(out)@ == old(out)@ + decimal(n as nat),
    decreases n,
{
    if n >= 10 {
        push_decimal(out, n / 10);
    }
    push_digit(out, n % 10);
    proof {
        if n >= 10 {
            assert((n / 10) as nat == n as nat / 10);
            assert((n % 10) as nat == n as nat % 10);
        }
    }
}

/// Appends the digit `d` to `out`: upper-case hexadecimal from 10 on.
fn push_digit(out: &mut String, d: u64)
    requires
        d < 16,
    ensures
        final(out)@ == old(out)@.push(hex_digit(d as int)),
        d < 10 ==> hex_digit(d as int) == digit(d as int),
{
    let code: u8 = if d < 10 {
        48 + d as u8
    } else {
        55 + d as u8
    };
    out.push(code as char);
}

/// Appends the last `width` hexadecimal digits of `n` to `out`, in upper case.
pub fn push_hex(out: &mut String, n: u64, width: u32)
    ensures
        final(out)@ == old(out)@ + hex(n as nat, width as nat),
    decreases width,
{
    if width > 0 {
        push_hex(out, n / 16, width - 1);
        push_digit(out, n % 16);
        assert((n / 16) as nat == n as nat / 16);
        assert((n % 16) as nat == n as nat % 16);
    }
}

/// What the digits of a number write is that number.
pub proof fn lemma_decimal_value(n: nat)
    ensures
        all_digits(decimal(n)),
        decimal(n).len() > 0,
        digits_value(decimal(n)) == n,
    decreases n,
{
    reveal_with_fuel(digits_value, 2);
    if n >= 10 {
        lemma_decimal_value(n / 10);
        assert(decimal(n).drop_last() == decimal(n / 10));
    } else {
        assert(decimal(n).drop_last() == Seq::<char>::empty());
    }
}

/// A number written in decimal is read back as it was.
pub proof fn law_decimal_reads_back(n: nat, max: nat)
    requires
        n <= max,
    ensures
        parse_number(decimal(n), max) == Some(n),
{
    lemma_decimal_value(n);
    assert(is_digit(decimal(n)[0]));
    assert(without_plus(decimal(n)) == decimal(n));
}

/// Trimming takes white space from both ends, all of it and nothing else.
pub proof fn law_trim_takes_only_space(s: Seq<char>)
    ensures
        exists|i: int, j: int| #[trigger] is_trimmed(s, i, j) && trim(s) == s.subrange(i, j),
{
    let i = lemma_trim_start(s);
    let t = s.skip(i);
    let k = lemma_trim_end(t);
    let j = i + k;
    assert(t.take(k) == s.subrange(i, j));
    assert forall|n: int| j <= n < s.len() implies is_space(#[trigger] s[n]) by {
        assert(s[n] == t[n - i]);
    }
    if i < j {
        assert(s[i] == t[0]);
        assert(s[j - 1] == t[k - 1]);
    }
    assert(is_trimmed(s, i, j));
}

/// Whether only white space stands before `i` and from `j` on, and none at either end between.
pub open spec fn is_trimmed(s: Seq<char>, i: int, j: int) -> bool {
    &&& 0 <= i <= j <= s.len()
    &&& forall|n: int| 0 <= n < i ==> is_space(#[trigger] s[n])
    &&& forall|n: int| j <= n < s.len() ==> is_space(#[trigger] s[n])
    &&& i < j ==> !is_space(s[i]) && !is_space(s[j - 1])
}

/// How much white space stands in front.
proof fn lemma_trim_start(s: Seq<char>) -> (i: int)
    ensures
        0 <= i <= s.len(),
        forall|n: int| 0 <= n < i ==> is_space(#[trigger] s[n]),
        i < s.len() ==> !is_space(s[i]),
        trim_start(s) == s.skip(i),
    decreases s.len(),
{
    if s.len() > 0 && is_space(s[0]) {
        let rest = s.drop_first();
        let k = lemma_trim_start(rest);
        assert(rest.skip(k) == s.skip(k + 1));
        assert forall|n: int| 0 <= n < k + 1 implies is_space(#[trigger] s[n]) by {
            if n > 0 {
                assert(s[n] == rest[n - 1]);
            }
        }
        k + 1
    } else {
        assert(s.skip(0) == s);
        0
    }
}

/// How much is left without the white space at the end.
proof fn lemma_trim_end(s: Seq<char>) -> (k: int)
    ensures
        0 <= k <= s.len(),
        forall|n: int| k <= n < s.len() ==> is_space(#[trigger] s[n]),
        k > 0 ==> !is_space(s[k - 1]),
        k > 0 ==> k <= s.len(),
        trim_end(s) == s.take(k),
    decreases s.len(),
{
    if s.len() > 0 && is_space(s.last()) {
        let rest = s.drop_last();
        let k = lemma_trim_end(rest);
        assert(rest.take(k) == s.take(k));
        assert forall|n: int| k <= n < s.len() implies is_space(#[trigger] s[n]) by {
            if n < s.len() - 1 {
                assert(s[n] == rest[n]);
            }
        }
        k
    } else {
        assert(s.take(s.len() as int) == s);
        s.len() as int
    }
}

/// Parts with a separator between each two.
pub open spec fn joined_by(parts: Seq<Seq<char>>, c: char) -> Seq<char>
    decreases parts.len(),
{
    if parts.len() == 0 {
        Seq::empty()
    } else if parts.len() == 1 {
        parts[0]
    } else {
        parts[0] + seq![c] + joined_by(parts.drop_first(), c)
    }
}

/// The parts of a text hold no separator, and make up the text with one between each two.
pub proof fn law_split_parts_make_up_text(s: Seq<char>, c: char, i: int)
    ensures
        split(s, c).len() > 0,
        joined_by(split(s, c), c) == s,
        0 <= i < split(s, c).len() ==> !split(s, c)[i].contains(c),
    decreases s.len(),
{
    lemma_find(s, c);
    let n = find(s, c);
    if s.len() == 0 || n >= s.len() {
        assert(split(s, c) == seq![s]);
        if s.contains(c) {
            let k = s.index_of(c);
            assert(s[k] == c);
        }
    } else {
        let rest = s.skip(n + 1);
        law_split_parts_make_up_text(rest, c, i - 1);
        let parts = split(s, c);
        assert(parts == seq![before(s, c)] + split(rest, c));
        assert(parts.drop_first() == split(rest, c));
        assert(before(s, c) + seq![c] + rest == s);
        if i == 0 {
            let first = before(s, c);
            if first.contains(c) {
                let k = first.index_of(c);
                assert(s[k] == c);
            }
        } else if 0 < i < parts.len() {
            assert(parts[i] == split(rest, c)[i - 1]);
        }
    }
}

/// What stands before the first separator, it, and what stands after it make up a text; without one
/// the text stands before it and nothing after.
pub proof fn law_before_and_after(s: Seq<char>, c: char)
    ensures
        !before(s, c).contains(c),
        s.contains(c) ==> before(s, c) + seq![c] + after(s, c) == s,
        !s.contains(c) ==> before(s, c) == s && after(s, c) == Seq::<char>::empty(),
{
    lemma_find(s, c);
    let n = find(s, c);
    if before(s, c).contains(c) {
        let k = before(s, c).index_of(c);
        assert(s[k] == c);
    }
    if n < s.len() {
        assert(s.contains(s[n]));
        assert(before(s, c) + seq![c] + after(s, c) == s);
    } else {
        if s.contains(c) {
            let k = s.index_of(c);
            assert(s[k] == c);
        }
        assert(s.take(n) == s);
    }
}

/// A line ends in a newline, or in a carriage return and a newline; at the end of the text it needs
/// neither. No text has no lines.
pub proof fn law_lines_end_in_newlines(line: Seq<char>, rest: Seq<char>)
    requires
        !line.contains('\n'),
    ensures
        lines(line + seq!['\r', '\n'] + rest) == seq![line] + lines(rest),
        line.len() == 0 || line.last() != '\r' ==> lines(line + seq!['\n'] + rest) == seq![line]
            + lines(rest),
        line.len() > 0 ==> lines(line) == seq![line],
        lines(Seq::empty()) == Seq::<Seq<char>>::empty(),
{
    let n = line.len() as int;
    assert forall|i: int| 0 <= i < n implies line[i] != '\n' by {
        assert(line.contains(line[i]));
    }
    let s = line + seq!['\r', '\n'] + rest;
    lemma_find_at(s, '\n', n + 1);
    assert(before(s, '\n') == line.push('\r'));
    assert(line.push('\r').drop_last() == line);
    assert(s.skip(n + 2) == rest);
    let t = line + seq!['\n'] + rest;
    lemma_find_at(t, '\n', n);
    assert(before(t, '\n') == line);
    assert(t.skip(n + 1) == rest);
    lemma_find_at(line, '\n', n);
}

/// A text occurs in another where some part of the other is that text.
pub proof fn law_contains_somewhere(s: Seq<char>, p: Seq<char>)
    ensures
        contains(s, p) <==> exists|i: int|
            0 <= i <= s.len() - p.len() && #[trigger] s.subrange(i, i + p.len()) == p,
    decreases s.len(),
{
    if starts_with(s, p) {
        assert(s.subrange(0int, 0int + p.len()) == s.take(p.len() as int));
    } else if s.len() > 0 {
        let rest = s.drop_first();
        law_contains_somewhere(rest, p);
        if contains(rest, p) {
            let i = choose|i: int|
                0 <= i <= rest.len() - p.len() && #[trigger] rest.subrange(i, i + p.len()) == p;
            assert(s.subrange(i + 1, i + 1 + p.len()) == rest.subrange(i, i + p.len()));
        }
        if exists|i: int|
            0 <= i <= s.len() - p.len() && #[trigger] s.subrange(i, i + p.len()) == p {
            let i = choose|i: int|
                0 <= i <= s.len() - p.len() && #[trigger] s.subrange(i, i + p.len()) == p;
            if i == 0 {
                assert(s.subrange(0int, 0int + p.len()) == s.take(p.len() as int));
            } else {
                assert(rest.subrange(i - 1, i - 1 + p.len()) == s.subrange(i, i + p.len()));
            }
        }
    } else if exists|i: int|
        0 <= i <= s.len() - p.len() && #[trigger] s.subrange(i, i + p.len()) == p {
        assert(s.take(0) == p);
    }
}

/// A text begins with a lower-case name in any case where each character is that of the name, or the
/// capital, 32 below it, of its letter.
pub proof fn law_any_case(s: Seq<char>, p: Seq<char>)
    requires
        forall|i: int| 0 <= i < p.len() ==> !('A' <= #[trigger] p[i] && p[i] <= 'Z'),
    ensures
        starts_with_any_case(s, p) <==> p.len() <= s.len() && forall|i: int|
            0 <= i < p.len() ==> (#[trigger] s[i] == p[i] || ('a' <= p[i] && p[i] <= 'z' && s[i] as u32
                + 32 == p[i] as u32)),
{
    if p.len() <= s.len() {
        assert forall|i: int| 0 <= i < p.len() implies (ascii_lower(#[trigger] s[i]) == p[i] <==> (s[i]
            == p[i] || ('a' <= p[i] && p[i] <= 'z' && s[i] as u32 + 32 == p[i] as u32))) by {
            assert(!('A' <= p[i] && p[i] <= 'Z'));
        }
    }
}

/// A text begins with another where its first characters are those.
pub proof fn law_starts_with(s: Seq<char>, p: Seq<char>)
    ensures
        starts_with(s, p) <==> exists|rest: Seq<char>| s == #[trigger] (p + rest),
{
    if starts_with(s, p) {
        let rest = s.skip(p.len() as int);
        assert(s == p + rest);
    }
    if exists|rest: Seq<char>| s == #[trigger] (p + rest) {
        let rest = choose|rest: Seq<char>| s == #[trigger] (p + rest);
        assert((p + rest).take(p.len() as int) == p);
    }
}

/// The digits of a number, each worth ten times the next.
pub proof fn law_digits_are_decimal(s: Seq<char>, c: char)
    requires
        '0' <= c && c <= '9',
    ensures
        digits_value(Seq::empty()) == 0,
        digits_value(s.push(c)) == 10 * digits_value(s) + (c as u32 - '0' as u32),
{
    assert(s.push(c).drop_last() == s);
}

/// A number in decimal is made of digits, has the value of the number, and has no zero in front but
/// that of the number 0.
pub proof fn law_decimal_is_canonical(n: nat)
    ensures
        decimal(n).len() > 0,
        all_digits(decimal(n)),
        digits_value(decimal(n)) == n,
        n > 0 ==> decimal(n)[0] != '0',
        decimal(0) == seq!['0'],
    decreases n,
{
    lemma_decimal_value(n);
    if n >= 10 {
        law_decimal_is_canonical(n / 10);
        assert(decimal(n)[0] == decimal(n / 10)[0]);
    }
}

/// A text is a number where it is made of digits, after one plus sign at most, and its value is not
/// above the limit.
pub proof fn law_numbers(digits: Seq<char>, max: nat)
    ensures
        digits.len() > 0 && (forall|i: int|
            0 <= i < digits.len() ==> '0' <= #[trigger] digits[i] && digits[i] <= '9') ==> {
            let n = digits_value(digits);
            &&& parse_number(digits, max) == if n <= max {
                Some(n)
            } else {
                None
            }
            &&& parse_number(seq!['+'] + digits, max) == parse_number(digits, max)
        },
        (exists|i: int|
            0 <= i < digits.len() && !('0' <= #[trigger] digits[i] && digits[i] <= '9')) ==> parse_number(
            seq!['+'] + digits,
            max,
        ) is None,
        (exists|i: int|
            0 <= i < digits.len() && !('0' <= #[trigger] digits[i] && digits[i] <= '9'))
            && digits[0] != '+' ==> parse_number(digits, max) is None,
        parse_number(Seq::empty(), max) is None,
        parse_number(seq!['+'], max) is None,
{
    let plus = seq!['+'] + digits;
    assert(plus.len() == digits.len() + 1);
    if digits.len() > 0 {
        assert(plus.drop_first() == digits);
        assert(without_plus(plus) == digits);
    }
    if digits.len() > 0 && (forall|i: int|
        0 <= i < digits.len() ==> '0' <= #[trigger] digits[i] && digits[i] <= '9') {
        assert(is_digit(digits[0]));
        assert(without_plus(digits) == digits);
        assert(all_digits(digits));
    }
    if exists|i: int|
        0 <= i < digits.len() && !('0' <= #[trigger] digits[i] && digits[i] <= '9') {
        let i = choose|i: int|
            0 <= i < digits.len() && !('0' <= #[trigger] digits[i] && digits[i] <= '9');
        assert(!is_digit(digits[i]));
        assert(!all_digits(digits));
    }
    assert(!is_digit(seq!['+'][0]));
    assert(without_plus(seq!['+']) == seq!['+']);
}

/// The value of an upper-case hexadecimal digit.
pub open spec fn hex_digit_value(c: char) -> int {
    if '0' <= c && c <= '9' {
        c as u32 - '0' as u32
    } else {
        c as u32 - 'A' as u32 + 10
    }
}

/// The number that hexadecimal digits write.
pub open spec fn hex_value(s: Seq<char>) -> int
    decreases s.len(),
{
    if s.len() == 0 {
        0
    } else {
        16 * hex_value(s.drop_last()) + hex_digit_value(s.last())
    }
}

/// A number in hexadecimal has as many digits as asked for, all of them digits or capitals up to F,
/// and reads back where it fits.
pub proof fn law_hex_reads_back(n: nat, width: nat)
    requires
        n < vstd::arithmetic::power::pow(16, width),
    ensures
        hex(n, width).len() == width,
        forall|i: int|
            0 <= i < width ==> {
                let c = #[trigger] hex(n, width)[i];
                ('0' <= c && c <= '9') || ('A' <= c && c <= 'F')
            },
        hex_value(hex(n, width)) == n,
    decreases width,
{
    broadcast use vstd::arithmetic::power::lemma_pow0;

    if width > 0 {
        reveal_with_fuel(vstd::arithmetic::power::pow, 2);
        law_hex_reads_back(n / 16, (width - 1) as nat);
        let s = hex(n, width);
        assert(s.drop_last() == hex(n / 16, (width - 1) as nat));
        assert forall|i: int| 0 <= i < width implies ({
            let c = #[trigger] s[i];
            ('0' <= c && c <= '9') || ('A' <= c && c <= 'F')
        }) by {
            if i < width - 1 {
                assert(s[i] == hex(n / 16, (width - 1) as nat)[i]);
            }
        }
    }
}

} // verus!

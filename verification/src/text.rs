//! Character-level helpers: building strings, decimal formatting.

use vstd::prelude::*;
use vstd::string::*;

verus! {

/// Appends one character to a string (`String::push`).
#[verifier::external_body]
pub(crate) fn push_char(s: &mut String, c: char)
    ensures
        final(s)@ == old(s)@.push(c),
{
    s.push(c);
}

/// The ASCII digit for a value below ten.
pub open spec fn digit_char(d: int) -> char {
    ((d + 48) as u8) as char
}

/// Decimal digits of a natural number, most significant first, no leading zeros.
pub open spec fn nat_digits(n: nat) -> Seq<char>
    decreases n,
{
    if n < 10 {
        seq![digit_char(n as int)]
    } else {
        nat_digits(n / 10).push(digit_char((n % 10) as int))
    }
}

/// The text `Display` gives an integer: an optional minus sign and its digits.
pub open spec fn decimal(n: int) -> Seq<char> {
    if n < 0 {
        seq!['-'] + nat_digits((-n) as nat)
    } else {
        nat_digits(n as nat)
    }
}

fn push_nat_digits(s: &mut String, n: u64)
    ensures
        final(s)@ == old(s)@ + nat_digits(n as nat),
    decreases n,
{
    if n < 10 {
        push_char(s, ((n as u8) + 48) as char);
    } else {
        push_nat_digits(s, n / 10);
        push_char(s, (((n % 10) as u8) + 48) as char);
        assert(nat_digits(n as nat) == nat_digits((n / 10) as nat).push(digit_char((n % 10) as int)));
    }
}

/// Appends the decimal text of `n` to `s`.
pub fn push_decimal(s: &mut String, n: i64)
    ensures
        final(s)@ == old(s)@ + decimal(n as int),
{
    if n < 0 {
        push_char(s, '-');
        let m: u64 = (0i128 - (n as i128)) as u64;
        push_nat_digits(s, m);
    } else {
        push_nat_digits(s, n as u64);
    }
}

/// The decimal text of `n`.
pub fn to_decimal(n: i64) -> (res: String)
    ensures
        res@ == decimal(n as int),
{
    let mut s = String::new();
    push_decimal(&mut s, n);
    s
}

} // verus!

verus! {

/// The characters of a string slice, in order.
pub fn chars_of(s: &str) -> (res: Vec<char>)
    ensures
        res@ == s@,
{
    let mut res: Vec<char> = Vec::new();
    for c in it: s.chars()
        invariant
            res@ == it.seq().take(it.index() as int),
            it.seq() == s@,
    {
        res.push(c);
    }
    res
}

} // verus!

verus! {

/// `p` is a prefix of `s`.
pub open spec fn has_prefix(s: Seq<char>, p: Seq<char>) -> bool {
    p.len() <= s.len() && s.subrange(0, p.len() as int) == p
}

/// The string holding `chars[lo..hi]`.
pub fn string_of(chars: &[char], lo: usize, hi: usize) -> (res: String)
    requires
        lo <= hi <= chars@.len(),
    ensures
        res@ == chars@.subrange(lo as int, hi as int),
{
    let mut res = String::new();
    let mut i: usize = lo;
    while i < hi
        invariant
            lo <= i <= hi <= chars@.len(),
            res@ == chars@.subrange(lo as int, i as int),
        decreases hi - i,
    {
        push_char(&mut res, chars[i]);
        assert(chars@.subrange(lo as int, i + 1) =~= chars@.subrange(lo as int, i as int).push(
            chars@[i as int],
        ));
        i += 1;
    }
    res
}

/// Whether `s` begins with `p`.
pub fn starts_with(s: &[char], p: &[char]) -> (res: bool)
    ensures
        res == has_prefix(s@, p@),
{
    if p.len() > s.len() {
        return false;
    }
    let mut i: usize = 0;
    while i < p.len()
        invariant
            p@.len() <= s@.len(),
            i <= p@.len(),
            forall|j: int| 0 <= j < i ==> s@[j] == p@[j],
        decreases p.len() - i,
    {
        if s[i] != p[i] {
            assert(s@.subrange(0, p@.len() as int)[i as int] != p@[i as int]);
            return false;
        }
        i += 1;
    }
    assert(s@.subrange(0, p@.len() as int) =~= p@);
    true
}

/// Position of the first `c` in `s` at or after `from`; `s.len()` when there is none.
pub open spec fn find_from(s: Seq<char>, from: int, c: char) -> int
    decreases s.len() - from,
{
    if from >= s.len() {
        s.len() as int
    } else if s[from] == c {
        from
    } else {
        find_from(s, from + 1, c)
    }
}

/// Position of the first `c` in `s` at or after `from`, or `s.len()`.
pub fn find_char(s: &[char], from: usize, c: char) -> (res: usize)
    requires
        from <= s@.len(),
    ensures
        res == find_from(s@, from as int, c),
        from <= res <= s@.len(),
{
    let mut i: usize = from;
    while i < s.len()
        invariant
            from <= i <= s@.len(),
            find_from(s@, from as int, c) == find_from(s@, i as int, c),
        decreases s.len() - i,
    {
        if s[i] == c {
            return i;
        }
        i += 1;
    }
    i
}

/// Number of bytes of the UTF-8 encoding of a character.
pub open spec fn utf8_width(c: char) -> int {
    if (c as u32) < 0x80 {
        1
    } else if (c as u32) < 0x800 {
        2
    } else if (c as u32) < 0x10000 {
        3
    } else {
        4
    }
}

/// How many leading characters of `s` take exactly `n` bytes in UTF-8; `None`
/// when byte `n` falls inside a character or past the end.
pub open spec fn chars_in_bytes(s: Seq<char>, n: int) -> Option<int>
    decreases s.len(),
{
    if n == 0 {
        Some(0)
    } else if s.len() == 0 || n < utf8_width(s[0]) {
        None
    } else {
        match chars_in_bytes(s.drop_first(), n - utf8_width(s[0])) {
            Some(k) => Some(k + 1),
            None => None,
        }
    }
}

fn char_width(c: char) -> (w: usize)
    ensures
        w == utf8_width(c),
{
    let v: u32 = c as u32;
    if v < 0x80 {
        1
    } else if v < 0x800 {
        2
    } else if v < 0x10000 {
        3
    } else {
        4
    }
}

/// How many characters of `s[lo..hi]` make up its first `n` bytes.
pub fn chars_in_byte_prefix(s: &[char], lo: usize, hi: usize, n: usize) -> (res: Option<usize>)
    requires
        lo <= hi <= s@.len(),
    ensures
        match chars_in_bytes(s@.subrange(lo as int, hi as int), n as int) {
            Some(k) => res == Some(k as usize),
            None => res is None,
        },
{
    let mut i: usize = lo;
    let mut left: usize = n;
    while left > 0
        invariant
            lo <= i <= hi <= s@.len(),
            left <= n,
            chars_in_bytes(s@.subrange(lo as int, hi as int), n as int) == match chars_in_bytes(
                s@.subrange(i as int, hi as int),
                left as int,
            ) {
                Some(k) => Some(k + (i - lo)),
                None => None,
            },
        decreases left,
    {
        if i == hi {
            return None;
        }
        let w: usize = char_width(s[i]);
        if left < w {
            return None;
        }
        assert(s@.subrange(i as int, hi as int).drop_first() =~= s@.subrange(i + 1, hi as int));
        left = left - w;
        i = i + 1;
    }
    Some(i - lo)
}

} // verus!

verus! {

/// Whether `s[from..]` begins with `p`.
pub fn starts_with_at(s: &[char], from: usize, p: &[char]) -> (res: bool)
    requires
        from <= s@.len(),
    ensures
        res == has_prefix(s@.skip(from as int), p@),
{
    let ghost t = s@.skip(from as int);
    let n: usize = s.len();
    if p.len() > n - from {
        return false;
    }
    let mut i: usize = 0;
    while i < p.len()
        invariant
            from <= s@.len(),
            t == s@.skip(from as int),
            t.len() == s@.len() - from,
            n == s@.len(),
            p@.len() <= t.len(),
            i <= p@.len(),
            forall|j: int| 0 <= j < i ==> t[j] == p@[j],
        decreases p.len() - i,
    {
        if s[from + i] != p[i] {
            assert(t.subrange(0, p@.len() as int)[i as int] != p@[i as int]);
            return false;
        }
        i += 1;
    }
    assert(t.subrange(0, p@.len() as int) =~= p@);
    true
}

/// `s` with every leading copy of `p` removed (`str::trim_start_matches`).
pub open spec fn strip_repeated(s: Seq<char>, p: Seq<char>) -> Seq<char>
    decreases s.len(),
{
    if p.len() > 0 && has_prefix(s, p) {
        strip_repeated(s.skip(p.len() as int), p)
    } else {
        s
    }
}

/// The position in `s` after every leading copy of `p`.
pub fn skip_repeated(s: &[char], p: &[char]) -> (res: usize)
    ensures
        res <= s@.len(),
        strip_repeated(s@, p@) == s@.skip(res as int),
{
    let mut pos: usize = 0;
    assert(s@.skip(0) =~= s@);
    while p.len() > 0 && starts_with_at(s, pos, p)
        invariant
            pos <= s@.len(),
            strip_repeated(s@, p@) == strip_repeated(s@.skip(pos as int), p@),
        decreases s.len() - pos,
    {
        assert(s@.skip(pos as int).skip(p@.len() as int) =~= s@.skip(pos + p@.len()));
        pos = pos + p.len();
    }
    pos
}

} // verus!

verus! {

/// When `c` first occurs at `k` in `s[from..]` (or not at all, `k` the end),
/// `find_from` gives `k`.
pub proof fn lemma_find_from_first(s: Seq<char>, from: int, k: int, c: char)
    requires
        0 <= from <= k <= s.len(),
        forall|j: int| from <= j < k ==> s[j] != c,
        k == s.len() || s[k] == c,
    ensures
        find_from(s, from, c) == k,
    decreases k - from,
{
    if from < k {
        lemma_find_from_first(s, from + 1, k, c);
    }
}

/// The first `k` characters of `s` are ASCII, so they are its first `k` bytes.
pub proof fn lemma_ascii_chars_in_bytes(s: Seq<char>, k: int)
    requires
        0 <= k <= s.len(),
        forall|j: int| 0 <= j < k ==> (s[j] as u32) < 0x80,
    ensures
        chars_in_bytes(s, k) == Some(k),
    decreases k,
{
    if k > 0 {
        assert(utf8_width(s[0]) == 1);
        assert forall|j: int| 0 <= j < k - 1 implies (s.drop_first()[j] as u32) < 0x80 by {
            assert(s.drop_first()[j] == s[j + 1]);
        }
        lemma_ascii_chars_in_bytes(s.drop_first(), k - 1);
    }
}

} // verus!

verus! {

proof fn lemma_digit_char_injective(x: int, y: int)
    requires
        0 <= x < 10,
        0 <= y < 10,
    ensures
        digit_char(x) == digit_char(y) ==> x == y,
{
    assert(digit_char(x) as u32 == x + 48);
    assert(digit_char(y) as u32 == y + 48);
}

/// Decimal text is a non-empty run of ASCII digits, and different numbers
/// have different texts.
pub proof fn law_decimal_digits(n: nat)
    ensures
        nat_digits(n).len() > 0,
        forall|i: int| 0 <= i < nat_digits(n).len() ==> '0' <= #[trigger] nat_digits(n)[i] <= '9',
    decreases n,
{
    if n >= 10 {
        law_decimal_digits(n / 10);
        assert forall|i: int| 0 <= i < nat_digits(n).len() implies '0' <= #[trigger] nat_digits(n)[i]
            <= '9' by {
            if i < nat_digits(n / 10).len() {
                assert(nat_digits(n)[i] == nat_digits(n / 10)[i]);
            }
        }
    }
}

/// Different numbers have different decimal texts.
pub proof fn law_decimal_injective(a: nat, b: nat)
    requires
        nat_digits(a) == nat_digits(b),
    ensures
        a == b,
    decreases a,
{
    law_decimal_digits(a / 10);
    law_decimal_digits(b / 10);
    lemma_digit_char_injective(a as int % 10, b as int % 10);
    if a < 10 && b < 10 {
        assert(nat_digits(a) == seq![digit_char(a as int)]);
        assert(nat_digits(b) == seq![digit_char(b as int)]);
        assert(seq![digit_char(a as int)][0] == digit_char(a as int));
        assert(seq![digit_char(b as int)][0] == digit_char(b as int));
        assert(digit_char(a as int) == digit_char(b as int));
        lemma_digit_char_injective(a as int, b as int);
        assert(a == b);
    } else if a >= 10 && b >= 10 {
        assert(nat_digits(a) == nat_digits(a / 10).push(digit_char(a as int % 10)));
        assert(nat_digits(b) == nat_digits(b / 10).push(digit_char(b as int % 10)));
        assert(nat_digits(a / 10) =~= nat_digits(a).drop_last());
        assert(nat_digits(b / 10) =~= nat_digits(b).drop_last());
        law_decimal_injective(a / 10, b / 10);
        assert(nat_digits(a).last() == digit_char(a as int % 10));
        assert(nat_digits(b).last() == digit_char(b as int % 10));
        assert(a as int % 10 == b as int % 10);
        assert(a / 10 == b / 10);
        assert(a == b);
    } else if a >= 10 {
        assert(nat_digits(a) == nat_digits(a / 10).push(digit_char(a as int % 10)));
        assert(nat_digits(a).len() >= 2);
        assert(nat_digits(b) == seq![digit_char(b as int)]);
        assert(nat_digits(b).len() == 1);
        assert(false);
    } else {
        assert(nat_digits(b) == nat_digits(b / 10).push(digit_char(b as int % 10)));
        assert(nat_digits(b).len() >= 2);
        assert(nat_digits(a) == seq![digit_char(a as int)]);
        assert(nat_digits(a).len() == 1);
        assert(false);
    }
}

/// The number a string of decimal digits stands for.
pub open spec fn digits_value(s: Seq<char>) -> int
    decreases s.len(),
{
    if s.len() == 0 {
        0
    } else {
        digits_value(s.drop_last()) * 10 + (s.last() as u32 - 48)
    }
}

proof fn lemma_nat_digits_value(n: nat)
    ensures
        digits_value(nat_digits(n)) == n,
        n > 0 ==> nat_digits(n)[0] != '0',
    decreases n,
{
    if n < 10 {
        let d = nat_digits(n);
        assert(digit_char(n as int) as u32 == n + 48);
        assert(d.drop_last() =~= Seq::<char>::empty());
        assert(digits_value(Seq::<char>::empty()) == 0);
        assert(digits_value(d) == digits_value(d.drop_last()) * 10 + (d.last() as u32 - 48));
    } else {
        lemma_nat_digits_value(n / 10);
        let d = nat_digits(n);
        assert(d.drop_last() =~= nat_digits(n / 10));
        assert(d.last() as u32 == (n % 10) + 48);
        assert(digits_value(d) == digits_value(d.drop_last()) * 10 + (d.last() as u32 - 48));
        assert((n / 10) * 10 + n % 10 == n);
        assert(d[0] == nat_digits(n / 10)[0]);
    }
}

/// `decimal(n)` reads back as `n`: a minus sign only for a negative number,
/// then the digits of its magnitude, the first of them `0` only for zero.
pub proof fn law_decimal_reads_back(n: int)
    ensures
        n < 0 ==> decimal(n)[0] == '-' && digits_value(decimal(n).skip(1)) == -n && decimal(n)[1]
            != '0',
        n >= 0 ==> digits_value(decimal(n)) == n && decimal(n)[0] != '-',
        n > 0 ==> decimal(n)[0] != '0',
        n == 0 ==> decimal(n) == seq!['0'],
{
    if n < 0 {
        let m = (-n) as nat;
        lemma_nat_digits_value(m);
        law_decimal_digits(m);
        assert(decimal(n).skip(1) =~= nat_digits(m));
        assert(decimal(n)[1] == nat_digits(m)[0]);
    } else {
        lemma_nat_digits_value(n as nat);
        law_decimal_digits(n as nat);
        assert('0' <= nat_digits(n as nat)[0] <= '9');
    }
}

} // verus!

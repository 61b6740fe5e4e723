use vstd::prelude::*;

verus! {

/// A one-byte whitespace character: tab, line feed, vertical tab, form feed,
/// carriage return or space.
pub open spec fn is_space(b: u8) -> bool {
    b == 32 || (9 <= b && b <= 13)
}

/// The UTF-8 encoding of U+0085 or U+00A0.
pub open spec fn is_space2(a: u8, b: u8) -> bool {
    a == 0xC2 && (b == 0x85 || b == 0xA0)
}

/// The UTF-8 encoding of U+1680, U+2000 to U+200A, U+2028, U+2029, U+202F,
/// U+205F or U+3000.
pub open spec fn is_space3(a: u8, b: u8, c: u8) -> bool {
    (a == 0xE1 && b == 0x9A && c == 0x80) || (a == 0xE2 && b == 0x80 && ((0x80 <= c && c <= 0x8A) || c == 0xA8
        || c == 0xA9 || c == 0xAF)) || (a == 0xE2 && b == 0x81 && c == 0x9F) || (a == 0xE3 && b == 0x80 && c
        == 0x80)
}

/// Length in bytes of the Unicode whitespace character that `s` starts with,
/// or 0 where it starts with none.
pub open spec fn space_at_start(s: Seq<u8>) -> int {
    if s.len() >= 1 && is_space(s[0]) {
        1
    } else if s.len() >= 2 && is_space2(s[0], s[1]) {
        2
    } else if s.len() >= 3 && is_space3(s[0], s[1], s[2]) {
        3
    } else {
        0
    }
}

/// Length in bytes of the Unicode whitespace character that `s` ends with, or 0
/// where it ends with none.
pub open spec fn space_at_end(s: Seq<u8>) -> int {
    let n = s.len() as int;
    if n >= 1 && is_space(s[n - 1]) {
        1
    } else if n >= 2 && is_space2(s[n - 2], s[n - 1]) {
        2
    } else if n >= 3 && is_space3(s[n - 3], s[n - 2], s[n - 1]) {
        3
    } else {
        0
    }
}

pub open spec fn is_digit(b: u8) -> bool {
    48 <= b && b <= 57
}

/// `s` without its leading Unicode whitespace.
pub open spec fn trim_start(s: Seq<u8>) -> Seq<u8>
    decreases s.len(),
{
    if space_at_start(s) > 0 {
        trim_start(s.subrange(space_at_start(s), s.len() as int))
    } else {
        s
    }
}

/// `s` without its trailing Unicode whitespace.
pub open spec fn trim_end(s: Seq<u8>) -> Seq<u8>
    decreases s.len(),
{
    if space_at_end(s) > 0 {
        trim_end(s.subrange(0, s.len() - space_at_end(s)))
    } else {
        s
    }
}

/// Length of the whitespace character that starts at `text[i]` and ends before
/// `text[j]`, as `space_at_start` gives it.
fn space_len_at(text: &[u8], i: usize, j: usize) -> (r: usize)
    requires
        i <= j <= text@.len(),
    ensures
        r == space_at_start(text@.subrange(i as int, j as int)),
{
    let n = j - i;
    if n >= 1 && (text[i] == 32 || (9 <= text[i] && text[i] <= 13)) {
        1
    } else if n >= 2 && text[i] == 0xC2 && (text[i + 1] == 0x85 || text[i + 1] == 0xA0) {
        2
    } else if n >= 3 && is_space3_exec(text[i], text[i + 1], text[i + 2]) {
        3
    } else {
        0
    }
}

/// Length of the whitespace character that ends just before `text[j]` and
/// starts at or after `text[i]`, as `space_at_end` gives it.
fn space_len_before(text: &[u8], i: usize, j: usize) -> (r: usize)
    requires
        i <= j <= text@.len(),
    ensures
        r == space_at_end(text@.subrange(i as int, j as int)),
{
    let n = j - i;
    if n >= 1 && (text[j - 1] == 32 || (9 <= text[j - 1] && text[j - 1] <= 13)) {
        1
    } else if n >= 2 && text[j - 2] == 0xC2 && (text[j - 1] == 0x85 || text[j - 1] == 0xA0) {
        2
    } else if n >= 3 && is_space3_exec(text[j - 3], text[j - 2], text[j - 1]) {
        3
    } else {
        0
    }
}

fn is_space3_exec(a: u8, b: u8, c: u8) -> (r: bool)
    ensures
        r == is_space3(a, b, c),
{
    (a == 0xE1 && b == 0x9A && c == 0x80) || (a == 0xE2 && b == 0x80 && ((0x80 <= c && c <= 0x8A) || c == 0xA8
        || c == 0xA9 || c == 0xAF)) || (a == 0xE2 && b == 0x81 && c == 0x9F) || (a == 0xE3 && b == 0x80 && c
        == 0x80)
}

/// The number that the decimal digits `s` spell.
pub open spec fn digits_value(s: Seq<u8>) -> nat
    decreases s.len(),
{
    if s.len() == 0 {
        0
    } else {
        digits_value(s.drop_last()) * 10 + (s.last() - 48) as nat
    }
}

/// `s` without a leading `+`.
pub open spec fn unsigned_digits(s: Seq<u8>) -> Seq<u8> {
    if s.len() > 0 && s[0] == 43 {
        s.drop_first()
    } else {
        s
    }
}

pub open spec fn all_digits(s: Seq<u8>) -> bool {
    forall|i: int| 0 <= i < s.len() ==> is_digit(#[trigger] s[i])
}

/// The value of an unsigned decimal number with an optional leading `+`, where
/// it is well formed and fits in a `u32`.
pub open spec fn unsigned_value(s: Seq<u8>) -> Option<u32> {
    let d = unsigned_digits(s);
    if d.len() > 0 && all_digits(d) && digits_value(d) <= u32::MAX {
        Some(digits_value(d) as u32)
    } else {
        None
    }
}

/// The offset that the text of an offset file gives, surrounding Unicode
/// whitespace allowed; `None` where it gives none.
pub open spec fn offset_value(text: Seq<u8>) -> Option<u32> {
    unsigned_value(trim_end(trim_start(text)))
}

/// The decimal digits of `n`, most significant first.
pub open spec fn decimal(n: nat) -> Seq<u8>
    decreases n,
{
    if n < 10 {
        seq![(48 + n) as u8]
    } else {
        decimal(n / 10).push((48 + n % 10) as u8)
    }
}

/// Reads an offset from the UTF-8 text of an offset file: a decimal number, with
/// surrounding Unicode whitespace. Text that holds no such number gives `None`, which
/// callers take as "no explicit offset".
pub fn parse_offset(text: &[u8]) -> (r: Option<u32>)
    ensures
        r == offset_value(text@),
{
    let n = text.len();
    let mut i: usize = 0;
    assert(text@.subrange(0, n as int) =~= text@);
    let mut k = space_len_at(text, 0, n);
    while k > 0
        invariant
            0 <= i <= n,
            n == text@.len(),
            k == space_at_start(text@.subrange(i as int, n as int)),
            trim_start(text@) == trim_start(text@.subrange(i as int, n as int)),
        decreases n - i,
    {
        proof {
            assert(text@.subrange(i as int, n as int).subrange(k as int, n - i) =~= text@.subrange(i + k, n as int));
        }
        i = i + k;
        k = space_len_at(text, i, n);
    }
    let mut j: usize = n;
    let mut k = space_len_before(text, i, n);
    while k > 0
        invariant
            0 <= i <= j <= n,
            n == text@.len(),
            k == space_at_end(text@.subrange(i as int, j as int)),
            trim_start(text@) == text@.subrange(i as int, n as int),
            trim_end(trim_start(text@)) == trim_end(text@.subrange(i as int, j as int)),
        decreases j - i,
    {
        proof {
            assert(text@.subrange(i as int, j as int).subrange(0, j - i - k) =~= text@.subrange(i as int, j - k));
        }
        j = j - k;
        k = space_len_before(text, i, j);
    }
    let ghost s = text@.subrange(i as int, j as int);
    assert(trim_end(trim_start(text@)) == s);
    let mut a: usize = i;
    if a < j && text[a] == 43 {
        a = a + 1;
    }
    let ghost d = text@.subrange(a as int, j as int);
    assert(d =~= unsigned_digits(s));
    if a == j {
        return None;
    }
    let limit: u64 = 0x1_0000_0000;
    let mut acc: u64 = 0;
    let mut m: usize = a;
    while m < j
        invariant
            a <= m <= j <= n,
            n == text@.len(),
            d == text@.subrange(a as int, j as int),
            limit == u32::MAX + 1,
            trim_end(trim_start(text@)) == s,
            d == unsigned_digits(s),
            d.len() > 0,
            forall|q: int| 0 <= q < m - a ==> is_digit(#[trigger] d[q]),
            acc == if digits_value(d.take(m - a)) < limit {
                digits_value(d.take(m - a))
            } else {
                limit as nat
            },
        decreases j - m,
    {
        let b = text[m];
        if b < 48 || b > 57 {
            proof {
                assert(d[m - a] == b);
                assert(!is_digit(d[m - a]));
                assert(unsigned_value(s).is_none());
            }
            return None;
        }
        proof {
            assert(d.take(m - a + 1).drop_last() =~= d.take(m - a));
        }
        let next: u64 = acc * 10 + ((b - 48) as u64);
        acc = if next < limit {
            next
        } else {
            limit
        };
        m = m + 1;
    }
    proof {
        assert(d.take(j - a) =~= d);
    }
    if acc < limit {
        Some(acc as u32)
    } else {
        None
    }
}

proof fn lemma_decimal(n: nat)
    ensures
        decimal(n).len() > 0,
        all_digits(decimal(n)),
        digits_value(decimal(n)) == n,
    decreases n,
{
    if n >= 10 {
        lemma_decimal(n / 10);
        let d = decimal(n);
        assert(d.drop_last() =~= decimal(n / 10));
        assert(d.last() == (48 + n % 10) as u8);
        assert(digits_value(d) == digits_value(decimal(n / 10)) * 10 + n % 10);
        assert forall|i: int| 0 <= i < d.len() implies is_digit(#[trigger] d[i]) by {
            if i < d.len() - 1 {
                assert(d[i] == decimal(n / 10)[i]);
            }
        }
    } else {
        let d = decimal(n);
        assert(d.drop_last() =~= Seq::<u8>::empty());
        assert(d.last() == (48 + n) as u8);
        assert(digits_value(d) == digits_value(d.drop_last()) * 10 + n);
    }
}

/// An offset written in decimal with a trailing newline reads back as the same
/// offset.
pub proof fn lemma_offset_round_trip(n: u32)
    ensures
        offset_value(decimal(n as nat).push(10u8)) == Some(n),
{
    lemma_decimal(n as nat);
    let d = decimal(n as nat);
    let t = d.push(10u8);
    assert(is_digit(d[0]));
    assert(t[0] == d[0]);
    assert(trim_start(t) == t);
    assert(t.subrange(0, t.len() - 1) =~= d);
    assert(is_digit(d.last()));
    assert(d[d.len() - 1] == d.last());
    assert(space_at_end(d) == 0);
    assert(trim_end(d) == d);
    assert(space_at_end(t) == 1);
    assert(trim_end(t) == d);
}

} // verus!

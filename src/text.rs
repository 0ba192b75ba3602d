//! Decimal text: digits, padding and trimming, and reading unsigned integers.
use crate::power::{lemma_ten_pow_succ, ten_pow};
use vstd::prelude::*;
use vstd::string::*;

verus! {

/// The character of the decimal digit `d`.
pub open spec fn digit_char(d: nat) -> char {
    (d + 48) as char
}

/// Whether `c` is one of `0` to `9`.
pub open spec fn is_digit(c: char) -> bool {
    '0' <= c && c <= '9'
}

/// The value of the digit character `c`.
pub open spec fn digit_value(c: char) -> nat {
    (c as int - 48) as nat
}

/// The decimal digits of `n`, without leading zeros; `0` is written `"0"`.
pub open spec fn digits(n: nat) -> Seq<char>
    decreases n,
{
    if n < 10 {
        seq![digit_char(n)]
    } else {
        digits(n / 10).push(digit_char(n % 10))
    }
}

/// The lowest `width` decimal digits of `n`, with leading zeros.
pub open spec fn padded_digits(n: nat, width: nat) -> Seq<char>
    decreases width,
{
    if width == 0 {
        Seq::empty()
    } else {
        padded_digits(n / 10, (width - 1) as nat).push(digit_char(n % 10))
    }
}

/// `s` without its trailing `0` characters.
pub open spec fn trim_zeros(s: Seq<char>) -> Seq<char>
    decreases s.len(),
{
    if s.len() > 0 && s.last() == '0' {
        trim_zeros(s.drop_last())
    } else {
        s
    }
}

/// Whether every character of `s` is a digit.
pub open spec fn all_digits(s: Seq<char>) -> bool {
    forall|i: int| 0 <= i < s.len() ==> is_digit(#[trigger] s[i])
}

/// The number that the digits `s` spell.
pub open spec fn digits_value(s: Seq<char>) -> nat
    decreases s.len(),
{
    if s.len() == 0 {
        0
    } else {
        digits_value(s.drop_last()) * 10 + digit_value(s.last())
    }
}

/// The unsigned 128-bit integer that `s` spells: one or more digits and a
/// value that fits; `None` for any other text.
pub open spec fn integer_text_value(s: Seq<char>) -> Option<nat> {
    if s.len() > 0 && all_digits(s) && digits_value(s) <= u128::MAX {
        Some(digits_value(s))
    } else {
        None
    }
}

/// The text for one digit.
fn digit_str(d: u128) -> (r: &'static str)
    requires
        d < 10,
    ensures
        r@ == seq![digit_char(d as nat)],
{
    proof {
        reveal_strlit("0");
        reveal_strlit("1");
        reveal_strlit("2");
        reveal_strlit("3");
        reveal_strlit("4");
        reveal_strlit("5");
        reveal_strlit("6");
        reveal_strlit("7");
        reveal_strlit("8");
        reveal_strlit("9");
    }
    let r = if d == 0 {
        "0"
    } else if d == 1 {
        "1"
    } else if d == 2 {
        "2"
    } else if d == 3 {
        "3"
    } else if d == 4 {
        "4"
    } else if d == 5 {
        "5"
    } else if d == 6 {
        "6"
    } else if d == 7 {
        "7"
    } else if d == 8 {
        "8"
    } else {
        "9"
    };
    assert(r@ =~= seq![digit_char(d as nat)]);
    r
}

/// Appends the decimal digits of `n`.
pub(crate) fn push_digits(out: &mut String, n: u128)
    ensures
        final(out)@ == old(out)@ + digits(n as nat),
    decreases n,
{
    if n >= 10 {
        push_digits(out, n / 10);
    }
    out.append(digit_str(n % 10));
    assert(out@ =~= old(out)@ + digits(n as nat));
}

/// Appends the lowest `width` digits of `n`, with leading zeros.
pub(crate) fn push_padded(out: &mut String, n: u128, width: u32)
    ensures
        final(out)@ == old(out)@ + padded_digits(n as nat, width as nat),
    decreases width,
{
    if width > 0 {
        push_padded(out, n / 10, width - 1);
        out.append(digit_str(n % 10));
    }
    assert(out@ =~= old(out)@ + padded_digits(n as nat, width as nat));
}

/// Dropping a trailing zero digit leaves the trimmed text unchanged.
proof fn lemma_trim_padded_step(n: nat, width: nat)
    requires
        width > 0,
        n % 10 == 0,
    ensures
        trim_zeros(padded_digits(n, width)) == trim_zeros(padded_digits(n / 10, (width - 1) as nat)),
{
    let s = padded_digits(n, width);
    assert(s.drop_last() =~= padded_digits(n / 10, (width - 1) as nat));
    assert(s.last() == '0');
}

/// Padded digits ending in a non-zero digit have nothing to trim.
proof fn lemma_trim_padded_done(n: nat, width: nat)
    requires
        width == 0 || n % 10 != 0,
    ensures
        trim_zeros(padded_digits(n, width)) == padded_digits(n, width),
{
    if width > 0 {
        let s = padded_digits(n, width);
        assert(s.last() == digit_char(n % 10));
    }
}

/// Appends the lowest `width` digits of `n`, zero-padded, without their
/// trailing zeros.
pub(crate) fn push_trimmed(out: &mut String, n: u128, width: u32)
    ensures
        final(out)@ == old(out)@ + trim_zeros(padded_digits(n as nat, width as nat)),
{
    let mut m = n;
    let mut w = width;
    while w > 0 && m % 10 == 0
        invariant
            trim_zeros(padded_digits(m as nat, w as nat)) == trim_zeros(
                padded_digits(n as nat, width as nat),
            ),
        decreases w,
    {
        proof {
            lemma_trim_padded_step(m as nat, w as nat);
        }
        m = m / 10;
        w = w - 1;
    }
    proof {
        lemma_trim_padded_done(m as nat, w as nat);
    }
    push_padded(out, m, w);
}

/// A prefix of a digit text spells no more than the whole text.
pub proof fn lemma_digits_value_prefix(s: Seq<char>, j: int)
    requires
        0 <= j <= s.len(),
    ensures
        digits_value(s.take(j)) <= digits_value(s),
    decreases s.len(),
{
    if j < s.len() {
        assert(s.take(j) =~= s.drop_last().take(j));
        lemma_digits_value_prefix(s.drop_last(), j);
    } else {
        assert(s.take(j) =~= s);
    }
}

/// `n` digits spell a number below `10^n`.
pub proof fn lemma_digits_value_bound(s: Seq<char>)
    requires
        all_digits(s),
    ensures
        digits_value(s) < ten_pow(s.len()),
    decreases s.len(),
{
    if s.len() > 0 {
        let t = s.drop_last();
        assert(all_digits(t)) by {
            assert forall|i: int| 0 <= i < t.len() implies is_digit(#[trigger] t[i]) by {
                assert(t[i] == s[i]);
            }
        }
        lemma_digits_value_bound(t);
        lemma_ten_pow_succ(t.len());
        assert(is_digit(s[s.len() - 1]));
        assert(digit_value(s.last()) < 10);
    } else {
        vstd::arithmetic::power::lemma_pow0(10);
    }
}

/// The characters of `s`, one by one.
pub(crate) fn chars_of(s: &str) -> (r: Vec<char>)
    ensures
        r@ == s@,
{
    let n = s.unicode_len();
    let mut r: Vec<char> = Vec::new();
    let mut i: usize = 0;
    while i < n
        invariant
            n == s@.len(),
            i <= n,
            r@ == s@.take(i as int),
        decreases n - i,
    {
        r.push(s.get_char(i));
        i = i + 1;
        assert(r@ =~= s@.take(i as int));
    }
    assert(r@ =~= s@);
    r
}

/// The index of the first `.` at or after `from`, or the length when there
/// is none.
pub(crate) fn find_dot(chars: &Vec<char>, from: usize) -> (r: usize)
    requires
        from <= chars.len(),
    ensures
        from <= r <= chars.len(),
        forall|j: int| from <= j < r ==> chars@[j] != '.',
        r < chars.len() ==> chars@[r as int] == '.',
{
    let mut i = from;
    while i < chars.len() && chars[i] != '.'
        invariant
            from <= i <= chars.len(),
            forall|j: int| from <= j < i ==> chars@[j] != '.',
        decreases chars.len() - i,
    {
        i = i + 1;
    }
    i
}

/// Reads `chars[lo..hi]` as an unsigned 128-bit integer.
pub(crate) fn parse_digits(chars: &Vec<char>, lo: usize, hi: usize) -> (r: Option<u128>)
    requires
        lo <= hi <= chars.len(),
    ensures
        r is Some <==> integer_text_value(chars@.subrange(lo as int, hi as int)) is Some,
        r is Some ==> r->Some_0 == integer_text_value(
            chars@.subrange(lo as int, hi as int),
        )->Some_0,
{
    let ghost seg = chars@.subrange(lo as int, hi as int);
    if lo == hi {
        return None;
    }
    let mut acc: u128 = 0;
    let mut i = lo;
    while i < hi
        invariant
            lo <= i <= hi <= chars.len(),
            seg == chars@.subrange(lo as int, hi as int),
            all_digits(seg.take(i - lo)),
            acc == digits_value(seg.take(i - lo)),
        decreases hi - i,
    {
        let c = chars[i];
        if !('0' <= c && c <= '9') {
            assert(!is_digit(seg[i - lo]));
            return None;
        }
        let d = (c as u32 - 48) as u128;
        let ghost next = seg.take(i - lo + 1);
        proof {
            assert(next.drop_last() =~= seg.take(i - lo));
            assert(next.last() == c);
            assert(all_digits(next)) by {
                assert forall|k: int| 0 <= k < next.len() implies is_digit(#[trigger] next[k]) by {
                    if k < next.len() - 1 {
                        assert(next[k] == seg.take(i - lo)[k]);
                    }
                }
            }
        }
        if acc > (u128::MAX - d) / 10 {
            proof {
                lemma_digits_value_prefix(seg, i - lo + 1);
                assert(digits_value(next) > u128::MAX) by (nonlinear_arith)
                    requires
                        digits_value(next) == acc * 10 + d,
                        acc > (u128::MAX - d) / 10,
                        d < 10,
                ;
            }
            return None;
        }
        acc = acc * 10 + d;
        i = i + 1;
    }
    assert(seg.take(hi - lo) =~= seg);
    Some(acc)
}

/// Whether `k` is the index of the first `.` in `s`.
pub open spec fn is_first_dot(s: Seq<char>, k: int) -> bool {
    &&& 0 <= k < s.len()
    &&& s[k] == '.'
    &&& forall|j: int| 0 <= j < k ==> s[j] != '.'
}

/// The index of the first `.` in `s`, which must hold one.
pub open spec fn first_dot(s: Seq<char>) -> int {
    choose|k: int| is_first_dot(s, k)
}

/// The first `.` is where a scan from the left stops.
pub proof fn lemma_first_dot(s: Seq<char>, k: int)
    requires
        is_first_dot(s, k),
    ensures
        s.contains('.'),
        first_dot(s) == k,
{
    assert(s[k] == '.');
    let c = first_dot(s);
    assert(is_first_dot(s, c));
    if c < k {
        assert(s[c] != '.');
    }
    if c > k {
        assert(s[k] != '.');
    }
}

/// A digit's character is a digit that reads back as the digit.
pub proof fn lemma_digit_char(d: nat)
    requires
        d < 10,
    ensures
        is_digit(digit_char(d)),
        digit_value(digit_char(d)) == d,
{
    assert(digit_char(d) as int == d + 48);
}

/// The digits of `n` are one or more digit characters that spell `n`.
pub proof fn lemma_digits_spell(n: nat)
    ensures
        digits(n).len() >= 1,
        all_digits(digits(n)),
        digits_value(digits(n)) == n,
    decreases n,
{
    let s = digits(n);
    lemma_digit_char(n % 10);
    if n < 10 {
        assert(s.drop_last() =~= Seq::<char>::empty());
        assert(digits_value(s) == digits_value(s.drop_last()) * 10 + digit_value(s.last()));
    } else {
        lemma_digits_spell(n / 10);
        assert(s.drop_last() =~= digits(n / 10));
        assert(digits_value(s) == (n / 10) * 10 + n % 10);
        vstd::arithmetic::div_mod::lemma_fundamental_div_mod(n as int, 10);
        assert forall|i: int| 0 <= i < s.len() implies is_digit(#[trigger] s[i]) by {
            if i < s.len() - 1 {
                assert(s[i] == digits(n / 10)[i]);
            }
        }
    }
}

/// Padded digits are `width` digit characters that spell `n % 10^width`.
pub proof fn lemma_padded_spell(n: nat, width: nat)
    ensures
        padded_digits(n, width).len() == width,
        all_digits(padded_digits(n, width)),
        digits_value(padded_digits(n, width)) == n % ten_pow(width),
    decreases width,
{
    let s = padded_digits(n, width);
    if width == 0 {
        vstd::arithmetic::power::lemma_pow0(10);
    } else {
        let w1 = (width - 1) as nat;
        lemma_digit_char(n % 10);
        lemma_padded_spell(n / 10, w1);
        assert(s.drop_last() =~= padded_digits(n / 10, w1));
        assert forall|i: int| 0 <= i < s.len() implies is_digit(#[trigger] s[i]) by {
            if i < s.len() - 1 {
                assert(s[i] == padded_digits(n / 10, w1)[i]);
            }
        }
        lemma_ten_pow_succ(w1);
        crate::power::lemma_ten_pow_grows(0, w1);
        let p = ten_pow(w1) as int;
        assert((n as int / 10) % p * 10 + n as int % 10 == n as int % (p * 10)) by {
            vstd::arithmetic::div_mod::lemma_breakdown(n as int, 10, p);
        }
    }
}

/// Trimming keeps a prefix, and the trimmed zeros were a power of ten.
pub proof fn lemma_trim_spell(s: Seq<char>)
    ensures
        trim_zeros(s).len() <= s.len(),
        trim_zeros(s) == s.take(trim_zeros(s).len() as int),
        digits_value(s) == digits_value(trim_zeros(s)) * ten_pow(
            (s.len() - trim_zeros(s).len()) as nat,
        ),
    decreases s.len(),
{
    if s.len() > 0 && s.last() == '0' {
        let t = s.drop_last();
        lemma_trim_spell(t);
        let k = trim_zeros(t).len();
        assert(t.take(k as int) =~= s.take(k as int));
        let e = (t.len() - k) as nat;
        lemma_ten_pow_succ(e);
        assert(trim_zeros(s) == trim_zeros(t));
        assert((s.len() - trim_zeros(s).len()) as nat == e + 1);
        assert(digit_value(s.last()) == 0);
        let v = digits_value(trim_zeros(t));
        assert(digits_value(s) == digits_value(t) * 10);
        assert(digits_value(t) == v * ten_pow(e));
        assert(v * ten_pow(e) * 10 == v * (ten_pow(e) * 10)) by (nonlinear_arith);
        assert(digits_value(s) == v * ten_pow(e + 1));
    } else {
        assert(s.take(s.len() as int) =~= s);
        assert(trim_zeros(s) == s);
        vstd::arithmetic::power::lemma_pow0(10);
        assert(ten_pow(0) == 1);
        assert((s.len() - trim_zeros(s).len()) as nat == 0nat);
        assert(digits_value(s) == digits_value(trim_zeros(s)) * ten_pow(
            (s.len() - trim_zeros(s).len()) as nat,
        ));
    }
}

/// A prefix of a digit text is a digit text.
pub proof fn lemma_all_digits_prefix(s: Seq<char>, k: int)
    requires
        all_digits(s),
        0 <= k <= s.len(),
    ensures
        all_digits(s.take(k)),
{
    assert forall|i: int| 0 <= i < s.take(k).len() implies is_digit(#[trigger] s.take(k)[i]) by {
        assert(s.take(k)[i] == s[i]);
    }
}

/// Digits written after others multiply the value of the first ones.
pub proof fn lemma_digits_value_concat(a: Seq<char>, b: Seq<char>)
    ensures
        digits_value(a + b) == digits_value(a) * ten_pow(b.len()) + digits_value(b),
    decreases b.len(),
{
    if b.len() == 0 {
        assert(a + b =~= a);
        vstd::arithmetic::power::lemma_pow0(10);
        assert(ten_pow(0) == 1);
        assert(digits_value(a) * ten_pow(b.len()) == digits_value(a));
    } else {
        let b1 = b.drop_last();
        lemma_digits_value_concat(a, b1);
        assert((a + b).drop_last() =~= a + b1);
        assert((a + b).last() == b.last());
        lemma_ten_pow_succ(b1.len());
        let x = digits_value(a);
        let p = ten_pow(b1.len());
        assert((x * p + digits_value(b1)) * 10 + digit_value(b.last()) == x * (p * 10) + (
        digits_value(b1) * 10 + digit_value(b.last()))) by (nonlinear_arith);
    }
}

/// Reading the first `k` digits is dividing by a power of ten.
pub proof fn lemma_digits_value_truncate(s: Seq<char>, k: int)
    requires
        all_digits(s),
        0 <= k <= s.len(),
    ensures
        digits_value(s) / ten_pow((s.len() - k) as nat) == digits_value(s.take(k)),
{
    let head = s.take(k);
    let tail = s.skip(k);
    assert(s =~= head + tail);
    lemma_digits_value_concat(head, tail);
    assert(all_digits(tail)) by {
        assert forall|i: int| 0 <= i < tail.len() implies is_digit(#[trigger] tail[i]) by {
            assert(tail[i] == s[k + i]);
        }
    }
    lemma_digits_value_bound(tail);
    vstd::arithmetic::div_mod::lemma_div_multiples_vanish_fancy(
        digits_value(head) as int,
        digits_value(tail) as int,
        ten_pow(tail.len()) as int,
    );
    assert(ten_pow(tail.len()) * digits_value(head) == digits_value(head) * ten_pow(tail.len()));
}

/// Whether every one of `chars[lo..hi]` is a digit.
pub(crate) fn all_digits_in(chars: &Vec<char>, lo: usize, hi: usize) -> (r: bool)
    requires
        lo <= hi <= chars.len(),
    ensures
        r == all_digits(chars@.subrange(lo as int, hi as int)),
{
    let ghost seg = chars@.subrange(lo as int, hi as int);
    let mut i = lo;
    while i < hi
        invariant
            lo <= i <= hi <= chars.len(),
            seg == chars@.subrange(lo as int, hi as int),
            forall|j: int| 0 <= j < i - lo ==> is_digit(#[trigger] seg[j]),
        decreases hi - i,
    {
        let c = chars[i];
        if !('0' <= c && c <= '9') {
            assert(!is_digit(seg[i - lo]));
            return false;
        }
        i = i + 1;
    }
    true
}

/// The value of the digits `chars[lo..hi]`, at most 38 of them.
pub(crate) fn read_digits(chars: &Vec<char>, lo: usize, hi: usize) -> (r: u128)
    requires
        lo <= hi <= chars.len(),
        hi - lo <= 38,
        all_digits(chars@.subrange(lo as int, hi as int)),
    ensures
        r == digits_value(chars@.subrange(lo as int, hi as int)),
{
    let ghost seg = chars@.subrange(lo as int, hi as int);
    let mut acc: u128 = 0;
    let mut i = lo;
    while i < hi
        invariant
            lo <= i <= hi <= chars.len(),
            hi - lo <= 38,
            seg == chars@.subrange(lo as int, hi as int),
            all_digits(seg),
            acc == digits_value(seg.take(i - lo)),
        decreases hi - i,
    {
        let c = chars[i];
        assert(is_digit(seg[i - lo]));
        let d = (c as u32 - 48) as u128;
        let ghost next = seg.take(i - lo + 1);
        proof {
            assert(next.drop_last() =~= seg.take(i - lo));
            assert(next.last() == c);
            lemma_all_digits_prefix(seg, i - lo + 1);
            lemma_digits_value_bound(next);
            crate::power::lemma_ten_pow_fits(next.len());
        }
        acc = acc * 10 + d;
        i = i + 1;
    }
    assert(seg.take(hi - lo) =~= seg);
    acc
}

} // verus!

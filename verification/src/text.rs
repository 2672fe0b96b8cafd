//! Text: equality, the order of strings, and the few pieces of formatting the library needs.

use vstd::prelude::*;
use vstd::utf8::encode_utf8;

verus! {

/// Lexicographic order of byte strings: a proper prefix comes first, else the first byte that
/// differs decides.
pub open spec fn bytes_leq(a: Seq<u8>, b: Seq<u8>) -> bool
    decreases a.len(),
{
    if a.len() == 0 {
        true
    } else if b.len() == 0 {
        false
    } else if a[0] != b[0] {
        a[0] < b[0]
    } else {
        bytes_leq(a.drop_first(), b.drop_first())
    }
}

/// The order of strings: by the bytes of their UTF-8 encoding.
pub open spec fn text_leq(a: Seq<char>, b: Seq<char>) -> bool {
    bytes_leq(encode_utf8(a), encode_utf8(b))
}

pub proof fn lemma_bytes_leq_reflexive(a: Seq<u8>)
    ensures
        bytes_leq(a, a),
    decreases a.len(),
{
    if a.len() > 0 {
        lemma_bytes_leq_reflexive(a.drop_first());
    }
}

pub proof fn lemma_bytes_leq_total(a: Seq<u8>, b: Seq<u8>)
    ensures
        bytes_leq(a, b) || bytes_leq(b, a),
    decreases a.len(),
{
    if a.len() > 0 && b.len() > 0 {
        lemma_bytes_leq_total(a.drop_first(), b.drop_first());
    }
}

pub proof fn lemma_bytes_leq_transitive(a: Seq<u8>, b: Seq<u8>, c: Seq<u8>)
    requires
        bytes_leq(a, b),
        bytes_leq(b, c),
    ensures
        bytes_leq(a, c),
    decreases a.len(),
{
    if a.len() > 0 && b.len() > 0 && c.len() > 0 && a[0] == b[0] && b[0] == c[0] {
        lemma_bytes_leq_transitive(a.drop_first(), b.drop_first(), c.drop_first());
    }
}

pub proof fn lemma_bytes_leq_antisymmetric(a: Seq<u8>, b: Seq<u8>)
    requires
        bytes_leq(a, b),
        bytes_leq(b, a),
    ensures
        a == b,
    decreases a.len(),
{
    if a.len() > 0 && b.len() > 0 {
        lemma_bytes_leq_antisymmetric(a.drop_first(), b.drop_first());
        assert(a =~= seq![a[0]] + a.drop_first());
        assert(b =~= seq![b[0]] + b.drop_first());
    } else {
        assert(a =~= b);
    }
}

/// Two strings with the same UTF-8 encoding are the same string.
pub proof fn lemma_utf8_injective(a: Seq<char>, b: Seq<char>)
    requires
        encode_utf8(a) == encode_utf8(b),
    ensures
        a == b,
{
    vstd::utf8::encode_utf8_decode_utf8(a);
    vstd::utf8::encode_utf8_decode_utf8(b);
}

/// Texts whose first characters are ASCII and differ are ordered by them.
pub proof fn lemma_first_byte_decides(a: Seq<char>, b: Seq<char>)
    requires
        a.len() > 0,
        b.len() > 0,
        a[0] as u32 <= 0x7f,
        b[0] as u32 <= 0x7f,
        (a[0] as u32) < (b[0] as u32),
    ensures
        text_leq(a, b),
        !text_leq(b, a),
{
    let (x, y) = (a[0] as u32, b[0] as u32);
    assert((x & 0x7f) as u8 == x as u8 && x as u8 == x) by (bit_vector)
        requires
            x <= 0x7f,
    ;
    assert((y & 0x7f) as u8 == y as u8 && y as u8 == y) by (bit_vector)
        requires
            y <= 0x7f,
    ;
    assert(encode_utf8(a)[0] == x as u8);
    assert(encode_utf8(b)[0] == y as u8);
}

/// A common prefix does not change how two byte strings compare.
proof fn lemma_bytes_leq_skip(a: Seq<u8>, b: Seq<u8>, k: int)
    requires
        0 <= k <= a.len(),
        k <= b.len(),
        a.take(k) == b.take(k),
    ensures
        bytes_leq(a, b) == bytes_leq(a.skip(k), b.skip(k)),
    decreases k,
{
    if k == 0 {
        assert(a.skip(0) =~= a);
        assert(b.skip(0) =~= b);
    } else {
        assert(a[0] == a.take(k)[0] && b[0] == b.take(k)[0]);
        assert(a.drop_first().take(k - 1) =~= a.take(k).drop_first());
        assert(b.drop_first().take(k - 1) =~= b.take(k).drop_first());
        lemma_bytes_leq_skip(a.drop_first(), b.drop_first(), k - 1);
        assert(a.drop_first().skip(k - 1) =~= a.skip(k));
        assert(b.drop_first().skip(k - 1) =~= b.skip(k));
    }
}

/// Whether `a` comes before `b` or equals it.
pub fn bytes_le(a: &[u8], b: &[u8]) -> (r: bool)
    ensures
        r == bytes_leq(a@, b@),
{
    let mut k: usize = 0;
    while k < a.len() && k < b.len() && a[k] == b[k]
        invariant
            k <= a@.len(),
            k <= b@.len(),
            a@.take(k as int) == b@.take(k as int),
        decreases a@.len() - k,
    {
        assert(a@.take(k + 1) =~= a@.take(k as int).push(a@[k as int]));
        assert(b@.take(k + 1) =~= b@.take(k as int).push(b@[k as int]));
        k = k + 1;
    }
    proof {
        lemma_bytes_leq_skip(a@, b@, k as int);
    }
    if k == a.len() {
        true
    } else if k == b.len() {
        false
    } else {
        a[k] < b[k]
    }
}

/// Whether `a` comes before `b` or equals it, in the order of strings.
pub fn text_le(a: &str, b: &str) -> (r: bool)
    ensures
        r == text_leq(a@, b@),
{
    bytes_le(a.as_bytes(), b.as_bytes())
}

/// Whether two strings hold the same characters.
pub fn same_text(a: &str, b: &str) -> (r: bool)
    ensures
        r == (a@ == b@),
{
    let (x, y) = (a.as_bytes(), b.as_bytes());
    if x.len() != y.len() {
        return false;
    }
    let mut k: usize = 0;
    while k < x.len()
        invariant
            k <= x@.len(),
            x@.len() == y@.len(),
            x@ == encode_utf8(a@),
            y@ == encode_utf8(b@),
            forall|i: int| 0 <= i < k ==> x@[i] == y@[i],
        decreases x@.len() - k,
    {
        if x[k] != y[k] {
            return false;
        }
        k = k + 1;
    }
    proof {
        assert(x@ =~= y@);
        lemma_utf8_injective(a@, b@);
    }
    true
}

/// The character of a decimal digit.
pub open spec fn digit(d: nat) -> char {
    (('0' as u32 + d) as u32) as char
}

/// A number in decimal, without leading zeros.
pub open spec fn decimal(n: nat) -> Seq<char>
    decreases n,
{
    if n < 10 {
        seq![digit(n)]
    } else {
        decimal(n / 10).push(digit(n % 10))
    }
}

/// Whether a character is a decimal digit.
pub open spec fn is_digit(c: char) -> bool {
    '0' <= c <= '9'
}

/// A number in decimal is digits, and at least one.
pub proof fn lemma_decimal_is_digits(n: nat)
    ensures
        decimal(n).len() > 0,
        forall|i: int| 0 <= i < decimal(n).len() ==> is_digit(#[trigger] decimal(n)[i]),
    decreases n,
{
    if n >= 10 {
        lemma_decimal_is_digits(n / 10);
    }
}

/// Different numbers differ in decimal.
pub proof fn lemma_decimal_injective(m: nat, n: nat)
    requires
        decimal(m) == decimal(n),
    ensures
        m == n,
    decreases m,
{
    lemma_decimal_is_digits(m / 10);
    lemma_decimal_is_digits(n / 10);
    let (a, b) = (decimal(m), decimal(n));
    assert(a.last() == digit(m % 10));
    assert(b.last() == digit(n % 10));
    assert(m % 10 == n % 10);
    if m >= 10 && n >= 10 {
        assert(a.drop_last() =~= decimal(m / 10));
        assert(b.drop_last() =~= decimal(n / 10));
        lemma_decimal_injective(m / 10, n / 10);
    }
}

/// Where digits end, at a character that is none, is fixed.
pub proof fn lemma_digits_end(a: Seq<char>, b: Seq<char>, x: Seq<char>, y: Seq<char>)
    requires
        forall|i: int| 0 <= i < a.len() ==> is_digit(#[trigger] a[i]),
        forall|i: int| 0 <= i < b.len() ==> is_digit(#[trigger] b[i]),
        x.len() > 0 && !is_digit(x[0]),
        y.len() > 0 && !is_digit(y[0]),
        a + x == b + y,
    ensures
        a == b,
        x == y,
{
    if a.len() < b.len() {
        assert((a + x)[a.len() as int] == x[0]);
        assert((b + y)[a.len() as int] == b[a.len() as int]);
    } else if b.len() < a.len() {
        assert((b + y)[b.len() as int] == y[0]);
        assert((a + x)[b.len() as int] == a[b.len() as int]);
    }
    assert((a + x).len() == a.len() + x.len() && (b + y).len() == b.len() + y.len());
    assert forall|i: int| 0 <= i < a.len() implies a[i] == b[i] by {
        assert((a + x)[i] == a[i] && (b + y)[i] == b[i]);
    }
    assert forall|i: int| 0 <= i < x.len() implies x[i] == y[i] by {
        assert((a + x)[a.len() + i] == x[i] && (b + y)[b.len() + i] == y[i]);
    }
    assert(a =~= b);
    assert(x =~= y);
}

fn digit_text(d: u64) -> (text: &'static str)
    requires
        d < 10,
    ensures
        text@ == seq![digit(d as nat)],
{
    proof {
        reveal_strlit("0");
        reveal_strlit("1");
        reveal_strlit("2");
        reveal_strlit("3");
        reveal_strlit("4");
        reveal_strlit("5");
        reveal_strlit("6");
        reveal_strlit("7");
        reveal_strlit("8");
        reveal_strlit("9");
    }
    let text = match d {
        0 => "0",
        1 => "1",
        2 => "2",
        3 => "3",
        4 => "4",
        5 => "5",
        6 => "6",
        7 => "7",
        8 => "8",
        _ => "9",
    };
    assert(text@ =~= seq![digit(d as nat)]);
    text
}

/// Writes a number in decimal at the end of `out`.
pub fn push_decimal(out: &mut String, n: u64)
    ensures
        final(out)@ == old(out)@ + decimal(n as nat),
    decreases n,
{
    if n >= 10 {
        push_decimal(out, n / 10);
    }
    out.append(digit_text(n % 10));
    assert(out@ =~= old(out)@ + decimal(n as nat));
}

/// A text in double quotes, with what cannot be shown in it escaped, as Rust debugs a string.
pub uninterp spec fn str_debug(text: Seq<char>) -> Seq<char>;

/// The `Debug` form of a `str`: `std::fmt::Debug::fmt` for `str`, through `format!`.
///
/// Claimed: it depends on the text alone. How it escapes is left open.
#[verifier::external_body]
pub(crate) fn quoted(text: &str) -> (out: String)
    ensures
        out@ == str_debug(text@),
{
    format!("{text:?}")
}

/// Two texts are the same exactly where their characters are, one for one.
pub proof fn law_same_text_compares_characters(a: &str, b: &str, r: bool)
    requires
        call_ensures(same_text, (a, b), r),
    ensures
        r <==> a@.len() == b@.len() && forall|i: int|
            0 <= i < a@.len() ==> #[trigger] a@[i] == b@[i],
{
    if a@.len() == b@.len() && (forall|i: int| 0 <= i < a@.len() ==> #[trigger] a@[i] == b@[i]) {
        assert(a@ =~= b@);
    }
}

/// One byte string stands before another, or equals it, exactly where they agree up to a place at which
/// the first ends, or at which its byte is the smaller one.
pub proof fn law_first_difference_decides(a: Seq<u8>, b: Seq<u8>)
    ensures
        bytes_leq(a, b) <==> exists|k: int|
            0 <= k <= a.len() && k <= b.len() && #[trigger] a.take(k) == b.take(k) && (k == a.len()
                || (k < b.len() && a[k] < b[k])),
    decreases a.len(),
{
    if bytes_leq(a, b) {
        if a.len() == 0 || a[0] != b[0] {
            assert(a.take(0) =~= b.take(0));
        } else {
            let (x, y) = (a.drop_first(), b.drop_first());
            law_first_difference_decides(x, y);
            let k = choose|k: int|
                0 <= k <= x.len() && k <= y.len() && #[trigger] x.take(k) == y.take(k) && (k
                    == x.len() || (k < y.len() && x[k] < y[k]));
            assert(a.take(k + 1) =~= seq![a[0]] + x.take(k));
            assert(b.take(k + 1) =~= seq![b[0]] + y.take(k));
            assert(a.take(k + 1) == b.take(k + 1));
        }
    }
    if exists|k: int|
        0 <= k <= a.len() && k <= b.len() && #[trigger] a.take(k) == b.take(k) && (k == a.len() || (k
            < b.len() && a[k] < b[k])) {
        let k = choose|k: int|
            0 <= k <= a.len() && k <= b.len() && #[trigger] a.take(k) == b.take(k) && (k == a.len()
                || (k < b.len() && a[k] < b[k]));
        lemma_bytes_leq_skip(a, b, k);
    }
}

/// Strings are compared by the bytes of their UTF-8 encoding.
pub proof fn law_text_is_compared_by_bytes(a: &str, b: &str, r: bool)
    requires
        call_ensures(text_le, (a, b), r),
    ensures
        r <==> bytes_leq(encode_utf8(a@), encode_utf8(b@)),
{
}

/// The number that decimal digits stand for, the last one counting ones.
pub open spec fn value_of(digits: Seq<char>) -> int
    decreases digits.len(),
{
    if digits.len() == 0 {
        0
    } else {
        value_of(digits.drop_last()) * 10 + (digits.last() as u32 - '0' as u32)
    }
}

/// A number in decimal stands for that number, and starts with no zero but where it is zero.
pub proof fn law_decimal_stands_for_its_number(n: nat)
    ensures
        value_of(decimal(n)) == n,
        decimal(n).len() > 0,
        n > 0 ==> decimal(n)[0] != '0',
        forall|i: int| 0 <= i < decimal(n).len() ==> '0' <= #[trigger] decimal(n)[i] <= '9',
    decreases n,
{
    reveal_with_fuel(value_of, 2);
    lemma_decimal_is_digits(n);
    if n < 10 {
        assert(decimal(n).drop_last() =~= Seq::<char>::empty());
    } else {
        law_decimal_stands_for_its_number(n / 10);
        assert(decimal(n).drop_last() =~= decimal(n / 10));
        assert(decimal(n)[0] == decimal(n / 10)[0]);
    }
}

/// Byte strings are compared at the first place where they differ.
pub proof fn law_bytes_are_compared_in_order(a: &[u8], b: &[u8], r: bool)
    requires
        call_ensures(bytes_le, (a, b), r),
    ensures
        r <==> exists|k: int|
            0 <= k <= a@.len() && k <= b@.len() && #[trigger] a@.take(k) == b@.take(k) && (k
                == a@.len() || (k < b@.len() && a@[k] < b@[k])),
{
    law_first_difference_decides(a@, b@);
}

/// Writing a number leaves what was there and puts digits behind it that stand for the number.
pub proof fn law_number_is_written_behind(out: &mut String, n: u64) -> (digits: Seq<char>)
    requires
        call_ensures(push_decimal, (out, n), ()),
    ensures
        final(out)@ == old(out)@ + digits,
        value_of(digits) == n,
        digits.len() > 0,
        n > 0 ==> digits[0] != '0',
        n == 0 ==> digits.len() == 1,
{
    law_decimal_stands_for_its_number(n as nat);
    decimal(n as nat)
}

} // verus!

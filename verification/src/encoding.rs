//! Text renderings used by the ledger: decimal numbers, lowercase hexadecimal
//! and the leading-zero test that defines mining difficulty.

use vstd::prelude::*;
use vstd::string::*;

verus! {

/// The character that stands for the digit value `d`, for `0 <= d < 16`.
pub open spec fn digit(d: int) -> char {
    "0123456789abcdef"@[d]
}

/// The decimal numeral of `n`, without sign or leading zeros.
pub open spec fn decimal(n: nat) -> Seq<char>
    decreases n,
{
    if n < 10 {
        seq![digit(n as int)]
    } else {
        decimal(n / 10).push(digit((n % 10) as int))
    }
}

/// The lowercase hexadecimal rendering of `bytes`: two digits per byte, the
/// high half first.
pub open spec fn hex(bytes: Seq<u8>) -> Seq<char> {
    Seq::new(
        2 * bytes.len(),
        |i: int|
            if i % 2 == 0 {
                digit(bytes[i / 2] as int / 16)
            } else {
                digit(bytes[i / 2] as int % 16)
            },
    )
}

/// Whether `text` begins with `count` copies of the character `'0'`.
pub open spec fn has_leading_zeros(text: Seq<char>, count: nat) -> bool {
    &&& count <= text.len()
    &&& forall|i: int| 0 <= i < count ==> text[i] == '0'
}

/// The one-character string of the digit `d`.
fn digit_str(d: u8) -> (s: &'static str)
    requires
        d < 16,
    ensures
        s@ == seq![digit(d as int)],
{
    let table = "0123456789abcdef";
    proof {
        reveal_strlit("0123456789abcdef");
    }
    table.substring_ascii(d as usize, d as usize + 1)
}

/// Appends the decimal numeral of `n` to `out`.
pub fn push_decimal(out: &mut String, n: u64)
    ensures
        final(out)@ == old(out)@ + decimal(n as nat),
    decreases n,
{
    if n >= 10 {
        push_decimal(out, n / 10);
    }
    out.append(digit_str((n % 10) as u8));
}

/// Appends the lowercase hexadecimal rendering of `bytes` to `out`.
pub fn push_hex(out: &mut String, bytes: &[u8])
    ensures
        final(out)@ == old(out)@ + hex(bytes@),
{
    let mut i: usize = 0;
    while i < bytes.len()
        invariant
            i <= bytes@.len(),
            out@ == old(out)@ + hex(bytes@.take(i as int)),
        decreases bytes@.len() - i,
    {
        let b = bytes[i];
        out.append(digit_str(b / 16));
        out.append(digit_str(b % 16));
        i += 1;
    }
    assert(bytes@.take(i as int) == bytes@);
}

/// Tests whether `text` begins with `count` copies of the character `'0'`.
/// Text that is all ASCII, as every hash is, is read byte by byte.
pub fn starts_with_zeros(text: &str, count: usize) -> (ok: bool)
    ensures
        ok == has_leading_zeros(text@, count as nat),
{
    let len = text.unicode_len();
    if count > len {
        return false;
    }
    let ascii = text.is_ascii();
    let mut i: usize = 0;
    while i < count
        invariant
            i <= count <= len,
            len == text@.len(),
            ascii == is_ascii(text),
            forall|k: int| 0 <= k < i ==> text@[k] == '0',
        decreases count - i,
    {
        let zero = if ascii {
            text.get_ascii(i) == 48u8
        } else {
            text.get_char(i) == '0'
        };
        if !zero {
            return false;
        }
        i += 1;
    }
    true
}

/// Whether `c` is one of the ten decimal digits.
pub open spec fn is_decimal_digit(c: char) -> bool {
    '0' <= c <= '9'
}

/// A decimal numeral is not empty and holds decimal digits only.
pub proof fn lemma_decimal_is_digits(n: nat)
    ensures
        decimal(n).len() > 0,
        forall|i: int| 0 <= i < decimal(n).len() ==> is_decimal_digit(#[trigger] decimal(n)[i]),
    decreases n,
{
    reveal_strlit("0123456789abcdef");
    if n >= 10 {
        lemma_decimal_is_digits(n / 10);
    }
}

/// Different numbers have different decimal numerals.
pub proof fn lemma_decimal_is_injective(a: nat, b: nat)
    requires
        decimal(a) == decimal(b),
    ensures
        a == b,
    decreases a,
{
    reveal_strlit("0123456789abcdef");
    lemma_decimal_is_digits(a / 10);
    lemma_decimal_is_digits(b / 10);
    if a < 10 && b < 10 {
        assert(decimal(a)[0] == digit(a as int));
        assert(decimal(b)[0] == digit(b as int));
    } else if a >= 10 && b >= 10 {
        let (x, y) = (decimal(a / 10), decimal(b / 10));
        let (c, d) = (digit((a % 10) as int), digit((b % 10) as int));
        assert(x == x.push(c).drop_last());
        assert(y == y.push(d).drop_last());
        assert(c == x.push(c).last());
        assert(d == y.push(d).last());
        lemma_decimal_is_injective(a / 10, b / 10);
    } else if a < 10 {
        assert(decimal(a).len() == 1 && decimal(b).len() == decimal(b / 10).len() + 1);
    } else {
        assert(decimal(b).len() == 1 && decimal(a).len() == decimal(a / 10).len() + 1);
    }
}

/// A decimal numeral ends where the first character that is no digit stands:
/// two texts that each start with a numeral followed by such a character are
/// equal only if the numbers are equal and the rests are.
pub proof fn lemma_decimal_is_delimited(a: nat, rest_a: Seq<char>, b: nat, rest_b: Seq<char>)
    requires
        decimal(a) + rest_a == decimal(b) + rest_b,
        rest_a.len() > 0 && !is_decimal_digit(rest_a[0]),
        rest_b.len() > 0 && !is_decimal_digit(rest_b[0]),
    ensures
        a == b,
        rest_a == rest_b,
{
    let (x, y) = (decimal(a), decimal(b));
    let (left, right) = (x + rest_a, y + rest_b);
    lemma_decimal_is_digits(a);
    lemma_decimal_is_digits(b);
    if x.len() < y.len() {
        assert(left[x.len() as int] == rest_a[0]);
        assert(right[x.len() as int] == y[x.len() as int]);
    } else if y.len() < x.len() {
        assert(right[y.len() as int] == rest_b[0]);
        assert(left[y.len() as int] == x[y.len() as int]);
    } else {
        assert(x =~= left.take(x.len() as int));
        assert(y =~= right.take(y.len() as int));
        assert(rest_a =~= left.skip(x.len() as int));
        assert(rest_b =~= right.skip(y.len() as int));
        lemma_decimal_is_injective(a, b);
    }
}

/// Different byte sequences have different hexadecimal renderings.
pub proof fn lemma_hex_is_injective(a: Seq<u8>, b: Seq<u8>)
    requires
        hex(a) == hex(b),
    ensures
        a == b,
{
    reveal_strlit("0123456789abcdef");
    assert(hex(a).len() == 2 * a.len() && hex(b).len() == 2 * b.len());
    assert forall|i: int| 0 <= i < a.len() implies a[i] == b[i] by {
        assert(hex(a)[2 * i] == digit(a[i] as int / 16));
        assert(hex(b)[2 * i] == digit(b[i] as int / 16));
        assert(hex(a)[2 * i + 1] == digit(a[i] as int % 16));
        assert(hex(b)[2 * i + 1] == digit(b[i] as int % 16));
    }
    assert(a =~= b);
}

} // verus!

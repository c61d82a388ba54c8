//! The two outside computations a block hash rests on: SHA-256 and the JSON
//! rendering of a string. Both are taken on trust; everything built on them is
//! proved against what is stated of them here.

use crate::encoding::digit;
use sha2::Digest;
use vstd::prelude::*;

verus! {

/// The SHA-256 digest of `data`.
pub uninterp spec fn sha256(data: Seq<u8>) -> Seq<u8>;

/// Whether `a` and `b` are different inputs with the same SHA-256 digest.
pub open spec fn sha256_collides(a: Seq<u8>, b: Seq<u8>) -> bool {
    a != b && sha256(a) == sha256(b)
}

/// How one character stands inside a JSON string: the double quote and the
/// backslash behind a backslash, the control characters below the space by
/// their short names or as `\u00` and two hexadecimal digits, every other
/// character as itself.
pub open spec fn json_escape(c: char) -> Seq<char> {
    if c == '"' {
        seq!['\\', '"']
    } else if c == '\\' {
        seq!['\\', '\\']
    } else if c == '\u{8}' {
        seq!['\\', 'b']
    } else if c == '\u{c}' {
        seq!['\\', 'f']
    } else if c == '\n' {
        seq!['\\', 'n']
    } else if c == '\r' {
        seq!['\\', 'r']
    } else if c == '\t' {
        seq!['\\', 't']
    } else if ' ' > c {
        seq!['\\', 'u', '0', '0', digit(c as int / 16), digit(c as int % 16)]
    } else {
        seq![c]
    }
}

/// The characters of `text`, each as it stands inside a JSON string.
pub open spec fn json_escaped(text: Seq<char>) -> Seq<char>
    decreases text.len(),
{
    if text.len() == 0 {
        Seq::empty()
    } else {
        json_escape(text[0]) + json_escaped(text.drop_first())
    }
}

/// The JSON string literal of `text`: its escaped characters between double
/// quotes.
pub open spec fn json_string(text: Seq<char>) -> Seq<char> {
    seq!['"'] + json_escaped(text) + seq!['"']
}

/// Calls `sha2::Sha256::digest`. Trusted: the 32 bytes returned are the
/// SHA-256 digest of `data`, a function of `data` alone.
#[verifier::external_body]
pub(crate) fn sha256_digest(data: &[u8]) -> (digest: [u8; 32])
    ensures
        digest@ == sha256(data@),
{
    sha2::Sha256::digest(data).into()
}

/// Calls `serde_json::to_string` on a string slice. Trusted: the text returned
/// is `text` between double quotes, with the escapes of the serializer's
/// table: `\"`, `\\`, `\b`, `\f`, `\n`, `\r`, `\t`, and `\u00` with two
/// lowercase hexadecimal digits for the other characters below the space;
/// all else, the characters beyond ASCII too, is written as it is. Writing a
/// string into memory has no failing path in the serializer, so the fallback
/// to the empty text is never taken.
#[verifier::external_body]
pub(crate) fn quote_json(text: &str) -> (quoted: String)
    ensures
        quoted@ == json_string(text@),
{
    serde_json::to_string(text).unwrap_or_default()
}

/// An escaped character can be read back from the front of a text: two texts
/// that start with escaped characters are equal only if the characters are
/// equal and the rests are.
pub proof fn lemma_json_escape_is_delimited(c: char, rest_c: Seq<char>, d: char, rest_d: Seq<char>)
    requires
        json_escape(c) + rest_c == json_escape(d) + rest_d,
    ensures
        c == d,
        rest_c == rest_d,
{
    reveal_strlit("0123456789abcdef");
    let (x, y) = (json_escape(c), json_escape(d));
    let (left, right) = (x + rest_c, y + rest_d);
    assert(left[0] == x[0] && right[0] == y[0]);
    if x[0] == '\\' {
        assert(left[1] == x[1] && right[1] == y[1]);
        if x[1] == 'u' {
            assert(left[4] == x[4] && right[4] == y[4]);
            assert(left[5] == x[5] && right[5] == y[5]);
            let (hi_c, lo_c) = (c as int / 16, c as int % 16);
            let (hi_d, lo_d) = (d as int / 16, d as int % 16);
            assert(0 <= hi_c < 2 && 0 <= lo_c < 16 && 0 <= hi_d < 2 && 0 <= lo_d < 16);
            assert(hi_c == hi_d && lo_c == lo_d);
            assert(c as int == d as int);
        }
    }
    assert(c == d);
    assert(rest_c =~= left.skip(x.len() as int));
    assert(rest_d =~= right.skip(y.len() as int));
}

/// Different texts are escaped differently.
pub proof fn lemma_json_escaped_is_injective(a: Seq<char>, b: Seq<char>)
    requires
        json_escaped(a) == json_escaped(b),
    ensures
        a == b,
    decreases a.len(),
{
    if a.len() == 0 || b.len() == 0 {
        if a.len() > 0 {
            assert(json_escaped(a).len() >= json_escape(a[0]).len() > 0);
        }
        if b.len() > 0 {
            assert(json_escaped(b).len() >= json_escape(b[0]).len() > 0);
        }
        assert(a =~= b);
    } else {
        lemma_json_escape_is_delimited(
            a[0],
            json_escaped(a.drop_first()),
            b[0],
            json_escaped(b.drop_first()),
        );
        lemma_json_escaped_is_injective(a.drop_first(), b.drop_first());
        assert(a =~= seq![a[0]] + a.drop_first());
        assert(b =~= seq![b[0]] + b.drop_first());
    }
}

/// Different texts have different JSON string literals.
pub proof fn lemma_json_string_is_injective(a: Seq<char>, b: Seq<char>)
    requires
        json_string(a) == json_string(b),
    ensures
        a == b,
{
    let (x, y) = (json_escaped(a), json_escaped(b));
    assert(json_string(a).len() == x.len() + 2 && json_string(b).len() == y.len() + 2);
    assert(x =~= json_string(a).subrange(1, 1 + x.len() as int));
    assert(y =~= json_string(b).subrange(1, 1 + y.len() as int));
    lemma_json_escaped_is_injective(a, b);
}

} // verus!

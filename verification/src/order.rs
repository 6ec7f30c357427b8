//! Lexicographic order on sequences, and the order of strings by their UTF-8 bytes.

use vstd::prelude::*;
use vstd::relations::*;
use vstd::utf8::*;

verus! {

/// Outcome of a three-way comparison.
#[derive(Clone, Copy, Debug, PartialEq, Eq, Structural)]
pub enum Sign {
    Less,
    Equal,
    Greater,
}

/// `a` comes strictly before `b` in the lexicographic order that `less` induces.
pub open spec fn lex_less<T>(a: Seq<T>, b: Seq<T>, less: spec_fn(T, T) -> bool) -> bool
    decreases a.len(),
{
    if b.len() == 0 {
        false
    } else if a.len() == 0 {
        true
    } else if a[0] == b[0] {
        lex_less(a.drop_first(), b.drop_first(), less)
    } else {
        less(a[0], b[0])
    }
}

/// The order of bytes by value.
pub open spec fn byte_less() -> spec_fn(u8, u8) -> bool {
    |x: u8, y: u8| x < y
}

/// `a` comes strictly before `b` when both are compared byte by byte in UTF-8,
/// which is how `str` is ordered.
pub open spec fn text_less(a: Seq<char>, b: Seq<char>) -> bool {
    lex_less(encode_utf8(a), encode_utf8(b), byte_less())
}

/// The three-way comparison of two texts.
pub open spec fn text_sign(a: Seq<char>, b: Seq<char>) -> Sign {
    if a == b {
        Sign::Equal
    } else if text_less(a, b) {
        Sign::Less
    } else {
        Sign::Greater
    }
}

/// No sequence comes before itself.
pub proof fn lemma_lex_irreflexive<T>(a: Seq<T>, less: spec_fn(T, T) -> bool)
    ensures
        !lex_less(a, a, less),
    decreases a.len(),
{
    if a.len() > 0 {
        lemma_lex_irreflexive(a.drop_first(), less);
    }
}

/// What comes before a sequence comes before all that comes after it.
pub proof fn lemma_lex_transitive<T>(a: Seq<T>, b: Seq<T>, c: Seq<T>, less: spec_fn(T, T) -> bool)
    requires
        strict_total_ordering(less),
        lex_less(a, b, less),
        lex_less(b, c, less),
    ensures
        lex_less(a, c, less),
    decreases a.len(),
{
    if a.len() > 0 {
        if a[0] == b[0] && b[0] == c[0] {
            lemma_lex_transitive(a.drop_first(), b.drop_first(), c.drop_first(), less);
        } else if a[0] != b[0] && b[0] != c[0] {
            assert(less(a[0], b[0]) && less(b[0], c[0]));
            assert(less(a[0], c[0]));
            assert(less(a[0], a[0]) == false);
        }
    }
}

/// Of two different sequences one comes before the other.
pub proof fn lemma_lex_connected<T>(a: Seq<T>, b: Seq<T>, less: spec_fn(T, T) -> bool)
    requires
        strict_total_ordering(less),
        a != b,
    ensures
        lex_less(a, b, less) || lex_less(b, a, less),
    decreases a.len(),
{
    if a.len() > 0 && b.len() > 0 {
        if a[0] == b[0] {
            if a.drop_first() == b.drop_first() {
                assert(a =~= seq![a[0]] + a.drop_first());
                assert(b =~= seq![b[0]] + b.drop_first());
            }
            lemma_lex_connected(a.drop_first(), b.drop_first(), less);
        } else {
            assert(less(a[0], b[0]) || less(b[0], a[0]));
        }
    } else if a.len() == 0 && b.len() == 0 {
        assert(a =~= b);
    }
}

/// Of two sequences only one comes before the other, and then they differ.
pub proof fn lemma_lex_asymmetric<T>(a: Seq<T>, b: Seq<T>, less: spec_fn(T, T) -> bool)
    requires
        strict_total_ordering(less),
        lex_less(a, b, less),
    ensures
        !lex_less(b, a, less),
        a != b,
{
    lemma_lex_irreflexive(a, less);
    if lex_less(b, a, less) {
        lemma_lex_transitive(a, b, a, less);
    }
}

/// Skipping a common prefix changes nothing in how two sequences compare.
pub proof fn lemma_lex_skip_common<T>(a: Seq<T>, b: Seq<T>, n: int, less: spec_fn(T, T) -> bool)
    requires
        0 <= n <= a.len(),
        n <= b.len(),
        forall|j: int| 0 <= j < n ==> a[j] == b[j],
    ensures
        lex_less(a, b, less) == lex_less(a.skip(n), b.skip(n), less),
    decreases n,
{
    if n == 0 {
        assert(a.skip(0) =~= a);
        assert(b.skip(0) =~= b);
    } else {
        assert(a[0] == b[0]);
        assert(a.drop_first().skip(n - 1) =~= a.skip(n));
        assert(b.drop_first().skip(n - 1) =~= b.skip(n));
        lemma_lex_skip_common(a.drop_first(), b.drop_first(), n - 1, less);
    }
}

/// The order of bytes is a strict total order.
pub proof fn lemma_byte_less_total()
    ensures
        strict_total_ordering(byte_less()),
{
}

/// Two texts with the same UTF-8 bytes are the same text.
pub proof fn lemma_encode_injective(a: Seq<char>, b: Seq<char>)
    requires
        encode_utf8(a) == encode_utf8(b),
    ensures
        a == b,
{
    encode_utf8_decode_utf8(a);
    encode_utf8_decode_utf8(b);
}

/// No text comes before itself.
pub proof fn lemma_text_irreflexive(a: Seq<char>)
    ensures
        !text_less(a, a),
{
    lemma_lex_irreflexive(encode_utf8(a), byte_less());
}

/// What comes before a text comes before all that comes after it.
pub proof fn lemma_text_transitive(a: Seq<char>, b: Seq<char>, c: Seq<char>)
    requires
        text_less(a, b),
        text_less(b, c),
    ensures
        text_less(a, c),
{
    lemma_byte_less_total();
    lemma_lex_transitive(encode_utf8(a), encode_utf8(b), encode_utf8(c), byte_less());
}

/// Of two different texts one comes before the other.
pub proof fn lemma_text_connected(a: Seq<char>, b: Seq<char>)
    requires
        a != b,
    ensures
        text_less(a, b) || text_less(b, a),
{
    lemma_byte_less_total();
    if encode_utf8(a) == encode_utf8(b) {
        lemma_encode_injective(a, b);
    }
    lemma_lex_connected(encode_utf8(a), encode_utf8(b), byte_less());
}

/// Of two texts only one comes before the other, and then they differ.
pub proof fn lemma_text_asymmetric(a: Seq<char>, b: Seq<char>)
    requires
        text_less(a, b),
    ensures
        !text_less(b, a),
        a != b,
{
    lemma_byte_less_total();
    lemma_lex_asymmetric(encode_utf8(a), encode_utf8(b), byte_less());
}

/// Compares two byte strings lexicographically.
pub fn compare_bytes(a: &[u8], b: &[u8]) -> (r: Sign)
    ensures
        r == Sign::Equal <==> a@ == b@,
        r == Sign::Less <==> lex_less(a@, b@, byte_less()),
        r == Sign::Greater <==> lex_less(b@, a@, byte_less()),
{
    let mut i: usize = 0;
    while i < a.len() && i < b.len()
        invariant
            i <= a.len(),
            i <= b.len(),
            forall|j: int| 0 <= j < i ==> a@[j] == b@[j],
        decreases a.len() - i,
    {
        if a[i] != b[i] {
            proof {
                lemma_byte_less_total();
                lemma_lex_skip_common(a@, b@, i as int, byte_less());
                lemma_lex_skip_common(b@, a@, i as int, byte_less());
                if a@[i as int] < b@[i as int] {
                    lemma_lex_asymmetric(a@, b@, byte_less());
                } else {
                    lemma_lex_asymmetric(b@, a@, byte_less());
                }
            }
            if a[i] < b[i] {
                return Sign::Less;
            } else {
                return Sign::Greater;
            }
        }
        i += 1;
    }
    proof {
        lemma_byte_less_total();
        lemma_lex_skip_common(a@, b@, i as int, byte_less());
        lemma_lex_skip_common(b@, a@, i as int, byte_less());
        if a@.len() == b@.len() {
            assert(a@ =~= b@);
            lemma_lex_irreflexive(a@, byte_less());
        } else if a@.len() < b@.len() {
            lemma_lex_asymmetric(a@, b@, byte_less());
        } else {
            lemma_lex_asymmetric(b@, a@, byte_less());
        }
    }
    if a.len() == b.len() {
        Sign::Equal
    } else if a.len() < b.len() {
        Sign::Less
    } else {
        Sign::Greater
    }
}

/// Compares two strings as `str` orders them.
pub fn compare_text(a: &str, b: &str) -> (r: Sign)
    ensures
        r == text_sign(a@, b@),
{
    let r = compare_bytes(a.as_bytes(), b.as_bytes());
    proof {
        if encode_utf8(a@) == encode_utf8(b@) {
            lemma_encode_injective(a@, b@);
        }
        if a@ == b@ {
            lemma_text_irreflexive(a@);
        }
    }
    r
}

} // verus!

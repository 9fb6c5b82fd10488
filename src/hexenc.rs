//! Lowercase hexadecimal text, as a mathematical function of bytes.
use vstd::prelude::*;

verus! {

/// The lowercase hexadecimal digit for a value below sixteen.
pub open spec fn hex_digit(n: u8) -> char {
    if n == 0 { '0' }
    else if n == 1 { '1' }
    else if n == 2 { '2' }
    else if n == 3 { '3' }
    else if n == 4 { '4' }
    else if n == 5 { '5' }
    else if n == 6 { '6' }
    else if n == 7 { '7' }
    else if n == 8 { '8' }
    else if n == 9 { '9' }
    else if n == 10 { 'a' }
    else if n == 11 { 'b' }
    else if n == 12 { 'c' }
    else if n == 13 { 'd' }
    else if n == 14 { 'e' }
    else { 'f' }
}

/// Two digits per byte, high nibble first.
pub open spec fn hex_of(b: Seq<u8>) -> Seq<char>
    decreases b.len(),
{
    if b.len() == 0 {
        Seq::empty()
    } else {
        hex_of(b.drop_last()) + seq![hex_digit(b.last() / 16), hex_digit(b.last() % 16)]
    }
}

/// A character of lowercase hexadecimal text.
pub open spec fn is_lower_hex_char(c: char) -> bool {
    ('0' <= c && c <= '9') || ('a' <= c && c <= 'f')
}

pub open spec fn is_lower_hex(s: Seq<char>) -> bool {
    forall|i: int| 0 <= i < s.len() ==> #[trigger] is_lower_hex_char(s[i])
}

proof fn lemma_hex_digit_injective(x: u8, y: u8)
    requires
        x < 16,
        y < 16,
        hex_digit(x) == hex_digit(y),
    ensures
        x == y,
{
}

/// Hex text is twice as long as its bytes and made of lowercase digits only.
pub proof fn lemma_hex_shape(b: Seq<u8>)
    ensures
        hex_of(b).len() == 2 * b.len(),
        is_lower_hex(hex_of(b)),
    decreases b.len(),
{
    if b.len() > 0 {
        lemma_hex_shape(b.drop_last());
        let prev = hex_of(b.drop_last());
        let tail = seq![hex_digit(b.last() / 16), hex_digit(b.last() % 16)];
        assert(hex_of(b) == prev + tail);
        assert forall|i: int| 0 <= i < hex_of(b).len() implies #[trigger] is_lower_hex_char(
            hex_of(b)[i],
        ) by {
            if i < prev.len() {
                assert(hex_of(b)[i] == prev[i]);
            } else {
                assert(hex_of(b)[i] == tail[i - prev.len()]);
            }
        }
    }
}

/// Distinct byte strings have distinct hex text.
pub proof fn lemma_hex_injective(a: Seq<u8>, b: Seq<u8>)
    requires
        hex_of(a) == hex_of(b),
    ensures
        a == b,
    decreases a.len(),
{
    lemma_hex_shape(a);
    lemma_hex_shape(b);
    if a.len() > 0 {
        let pa = hex_of(a.drop_last());
        let pb = hex_of(b.drop_last());
        lemma_hex_shape(a.drop_last());
        lemma_hex_shape(b.drop_last());
        let n = pa.len() as int;
        assert(hex_of(a)[n] == hex_digit(a.last() / 16));
        assert(hex_of(b)[n] == hex_digit(b.last() / 16));
        assert(hex_of(a)[n + 1] == hex_digit(a.last() % 16));
        assert(hex_of(b)[n + 1] == hex_digit(b.last() % 16));
        lemma_hex_digit_injective(a.last() / 16, b.last() / 16);
        lemma_hex_digit_injective(a.last() % 16, b.last() % 16);
        assert(pa == hex_of(a).subrange(0, n));
        assert(pb == hex_of(b).subrange(0, n));
        lemma_hex_injective(a.drop_last(), b.drop_last());
        assert(a.last() == b.last());
        assert(a == a.drop_last().push(a.last()));
        assert(b == b.drop_last().push(b.last()));
    }
}

} // verus!

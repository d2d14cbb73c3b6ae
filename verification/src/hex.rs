//! The `0x`-prefixed lower-case hex text of a byte string.

use vstd::prelude::*;

verus! {

/// The lower-case hex digit of a nibble.
pub open spec fn hex_digit(n: u8) -> char
    recommends
        n < 16,
{
    if n < 10 {
        (48 + n) as char
    } else {
        (87 + n) as char
    }
}

/// Two lower-case hex digits per byte, high nibble first.
pub open spec fn hex_lower(s: Seq<u8>) -> Seq<char>
    decreases s.len(),
{
    if s.len() == 0 {
        Seq::empty()
    } else {
        seq![hex_digit(s[0] / 16), hex_digit(s[0] % 16)] + hex_lower(s.drop_first())
    }
}

/// `0x` followed by the lower-case hex digits of `s`: how a byte string is displayed.
pub open spec fn prefixed_hex(s: Seq<u8>) -> Seq<char> {
    seq!['0', 'x'] + hex_lower(s)
}

/// The hex text of bytes, character by character: `0`, `x`, then for each
/// byte its high nibble and its low nibble as lower-case hex digits
/// (`0`-`9` are code points 48-57, `a`-`f` are 97-102).
pub proof fn lemma_prefixed_hex_chars(s: Seq<u8>)
    ensures
        prefixed_hex(s).len() == 2 + 2 * s.len(),
        prefixed_hex(s)[0] == '0',
        prefixed_hex(s)[1] == 'x',
        forall|i: int, half: int|
            0 <= i < s.len() && 0 <= half < 2 ==> {
                let n: int = if half == 0 {
                    (s[i] / 16) as int
                } else {
                    (s[i] % 16) as int
                };
                let c = #[trigger] prefixed_hex(s)[2 + 2 * i + half];
                &&& n < 10 ==> c as int == 48 + n
                &&& n >= 10 ==> c as int == 97 + (n - 10)
            },
{
    lemma_hex_lower_chars(s);
    assert forall|i: int, half: int| 0 <= i < s.len() && 0 <= half < 2 implies {
        let n: int = if half == 0 {
            (s[i] / 16) as int
        } else {
            (s[i] % 16) as int
        };
        let c = #[trigger] prefixed_hex(s)[2 + 2 * i + half];
        &&& n < 10 ==> c as int == 48 + n
        &&& n >= 10 ==> c as int == 97 + (n - 10)
    } by {
        assert(prefixed_hex(s)[2 + 2 * i + half] == hex_lower(s)[2 * i + half]);
        let b = s[i];
        if half == 0 {
            assert(hex_lower(s)[2 * i] == hex_digit(b / 16));
        } else {
            assert(hex_lower(s)[2 * i] == hex_digit(b / 16));
            assert(hex_lower(s)[2 * i + 1] == hex_digit(b % 16));
        }
    }
}

proof fn lemma_hex_lower_chars(s: Seq<u8>)
    ensures
        hex_lower(s).len() == 2 * s.len(),
        forall|i: int|
            0 <= i < s.len() ==> #[trigger] hex_lower(s)[2 * i] == hex_digit(s[i] / 16) && hex_lower(
                s,
            )[2 * i + 1] == hex_digit(s[i] % 16),
    decreases s.len(),
{
    if s.len() > 0 {
        let rest = s.drop_first();
        lemma_hex_lower_chars(rest);
        assert forall|i: int| 0 <= i < s.len() implies #[trigger] hex_lower(s)[2 * i] == hex_digit(
            s[i] / 16,
        ) && hex_lower(s)[2 * i + 1] == hex_digit(s[i] % 16) by {
            if i > 0 {
                assert(rest[i - 1] == s[i]);
                assert(hex_lower(s)[2 * i] == hex_lower(rest)[2 * (i - 1)]);
                assert(hex_lower(s)[2 * i + 1] == hex_lower(rest)[2 * (i - 1) + 1]);
            }
        }
    }
}

/// Appends one character with `String::push`, which std documents as appending
/// the character to the end of the string.
#[verifier::external_body]
fn push_char(s: &mut String, c: char)
    ensures
        final(s)@ == old(s)@.push(c),
{
    s.push(c)
}

fn nibble_char(n: u8) -> (c: char)
    requires
        n < 16,
    ensures
        c == hex_digit(n),
{
    if n < 10 {
        (48u8 + n) as char
    } else {
        (87u8 + n) as char
    }
}

/// The text `0x` followed by two lower-case hex digits per byte.
pub fn prefixed_hex_string(bytes: &[u8]) -> (r: String)
    ensures
        r@ == prefixed_hex(bytes@),
{
    let mut r = String::new();
    push_char(&mut r, '0');
    push_char(&mut r, 'x');
    assert(bytes@.skip(0) =~= bytes@);
    let n = bytes.len();
    let mut i: usize = 0;
    while i < n
        invariant
            n == bytes@.len(),
            0 <= i <= n,
            prefixed_hex(bytes@) =~= r@ + hex_lower(bytes@.skip(i as int)),
        decreases n - i,
    {
        let b = bytes[i];
        assert(bytes@.skip(i as int).drop_first() =~= bytes@.skip(i + 1));
        assert(bytes@.skip(i as int)[0] == b);
        push_char(&mut r, nibble_char(b / 16));
        push_char(&mut r, nibble_char(b % 16));
        i = i + 1;
    }
    assert(bytes@.skip(n as int) =~= Seq::<u8>::empty());
    r
}

} // verus!

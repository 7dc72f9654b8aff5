//! A hash of text that every node computes alike, and numbers in
//! hexadecimal.

use vstd::prelude::*;
use vstd::string::*;
use vstd::utf8::encode_utf8;

verus! {

/// The value from which the hash starts.
pub const HASH_OFFSET: u64 = 0xcbf2_9ce4_8422_2325;

/// The factor by which the hash is multiplied after each byte.
pub const HASH_PRIME: u64 = 0x0000_0100_0000_01b3;

/// One step of the hash: the byte is xor-ed into the state, which is then
/// multiplied by the prime, modulo two to the 64.
pub open spec fn hash_step(state: u64, byte: u8) -> u64 {
    (((state ^ (byte as u64)) as nat * HASH_PRIME as nat) % 0x1_0000_0000_0000_0000nat) as u64
}

/// The 64-bit FNV-1a hash of a byte string.
pub open spec fn hash_bytes(bytes: Seq<u8>) -> u64
    decreases bytes.len(),
{
    if bytes.len() == 0 {
        HASH_OFFSET
    } else {
        hash_step(hash_bytes(bytes.drop_last()), bytes.last())
    }
}

/// The hash of a text: the hash of its UTF-8 encoding.
pub open spec fn hash_text(text: Seq<char>) -> u64 {
    hash_bytes(encode_utf8(text))
}

/// Values that have a 64-bit hash which depends on nothing but the value.
pub trait EasyHash {
    /// The hash of the value.
    spec fn spec_easyhash(&self) -> u64;

    /// Computes the hash of the value.
    fn easyhash(&self) -> (h: u64)
        ensures
            h == self.spec_easyhash(),
    ;
}

impl EasyHash for str {
    open spec fn spec_easyhash(&self) -> u64 {
        hash_text(self@)
    }

    fn easyhash(&self) -> (h: u64) {
        let bytes = self.as_bytes();
        let mut h: u64 = HASH_OFFSET;
        let mut i: usize = 0;
        while i < bytes.len()
            invariant
                i <= bytes@.len(),
                bytes@ == encode_utf8(self@),
                h == hash_bytes(bytes@.subrange(0, i as int)),
            decreases bytes@.len() - i,
        {
            let b: u8 = bytes[i];
            proof {
                let upto = bytes@.subrange(0, i + 1);
                assert(upto.drop_last() =~= bytes@.subrange(0, i as int));
                assert(upto.last() == b);
            }
            h = (h ^ (b as u64)).wrapping_mul(HASH_PRIME);
            i = i + 1;
        }
        assert(bytes@.subrange(0, i as int) =~= bytes@);
        h
    }
}

impl EasyHash for String {
    open spec fn spec_easyhash(&self) -> u64 {
        hash_text(self@)
    }

    fn easyhash(&self) -> (h: u64) {
        self.as_str().easyhash()
    }
}

/// The character of a hexadecimal digit, in upper case.
pub open spec fn hex_digit_char(d: nat) -> char
    recommends
        d < 16,
{
    if d < 10 {
        crate::ident::digit_char(d)
    } else if d == 10 {
        'A'
    } else if d == 11 {
        'B'
    } else if d == 12 {
        'C'
    } else if d == 13 {
        'D'
    } else if d == 14 {
        'E'
    } else {
        'F'
    }
}

/// The upper-case hexadecimal numeral of `n`, without leading zeros.
pub open spec fn upper_hex(n: nat) -> Seq<char>
    decreases n,
{
    if n < 16 {
        seq![hex_digit_char(n)]
    } else {
        upper_hex(n / 16).push(hex_digit_char(n % 16))
    }
}

/// Values that can be written in upper-case hexadecimal.
pub trait Hex {
    /// The numeral of the value.
    spec fn spec_hex(&self) -> Seq<char>;

    /// Writes the value in upper-case hexadecimal.
    fn hex(&self) -> (text: String)
        ensures
            text@ == self.spec_hex(),
    ;
}

/// The text of one hexadecimal digit.
fn hex_digit_text(d: u64) -> (s: &'static str)
    requires
        d < 16,
    ensures
        s@ == seq![hex_digit_char(d as nat)],
{
    proof {
        reveal_strlit("0");
        reveal_strlit("1");
        reveal_strlit("2");
        reveal_strlit("3");
        reveal_strlit("4");
        reveal_strlit("5");
        reveal_strlit("6");
        reveal_strlit("7");
        reveal_strlit("8");
        reveal_strlit("9");
        reveal_strlit("A");
        reveal_strlit("B");
        reveal_strlit("C");
        reveal_strlit("D");
        reveal_strlit("E");
        reveal_strlit("F");
    }
    let s = if d == 0 {
        "0"
    } else if d == 1 {
        "1"
    } else if d == 2 {
        "2"
    } else if d == 3 {
        "3"
    } else if d == 4 {
        "4"
    } else if d == 5 {
        "5"
    } else if d == 6 {
        "6"
    } else if d == 7 {
        "7"
    } else if d == 8 {
        "8"
    } else if d == 9 {
        "9"
    } else if d == 10 {
        "A"
    } else if d == 11 {
        "B"
    } else if d == 12 {
        "C"
    } else if d == 13 {
        "D"
    } else if d == 14 {
        "E"
    } else {
        "F"
    };
    assert(s@ =~= seq![hex_digit_char(d as nat)]);
    s
}

/// Appends the upper-case hexadecimal numeral of `n` to `out`.
fn push_upper_hex(out: &mut String, n: u64)
    ensures
        final(out)@ == old(out)@ + upper_hex(n as nat),
    decreases n,
{
    if n >= 16 {
        push_upper_hex(out, n / 16);
    }
    out.append(hex_digit_text(n % 16));
    assert(out@ =~= old(out)@ + upper_hex(n as nat));
}

impl Hex for u64 {
    open spec fn spec_hex(&self) -> Seq<char> {
        upper_hex(*self as nat)
    }

    fn hex(&self) -> (text: String) {
        let mut text = String::new();
        push_upper_hex(&mut text, *self);
        assert(text@ =~= upper_hex(*self as nat));
        text
    }
}

} // verus!

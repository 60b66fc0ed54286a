//! Session identifiers: lowercase hexadecimal encoding of random bytes.

use vstd::prelude::*;
use crate::text::string_from_chars;

verus! {

/// The lowercase hexadecimal digit for `d` (below 16).
pub open spec fn hex_digit(d: u8) -> char {
    if d < 10 {
        (('0' as u8) + d) as char
    } else {
        (('a' as u8) + d - 10) as char
    }
}

/// Two lowercase hex digits per byte, high nibble first.
pub open spec fn hex(b: Seq<u8>) -> Seq<char>
    decreases b.len(),
{
    if b.len() == 0 {
        Seq::empty()
    } else {
        hex(b.drop_last()) + seq![hex_digit(b.last() / 16), hex_digit(b.last() % 16)]
    }
}

fn digit(d: u8) -> (c: char)
    requires
        d < 16,
    ensures
        c == hex_digit(d),
{
    if d < 10 {
        (48u8 + d) as char
    } else {
        (97u8 + d - 10) as char
    }
}

/// Lowercase hexadecimal encoding of `bytes`.
pub fn encode(bytes: &[u8]) -> (r: String)
    ensures
        r@ == hex(bytes@),
{
    let mut out: Vec<char> = Vec::new();
    let mut i: usize = 0;
    while i < bytes.len()
        invariant
            i <= bytes@.len(),
            out@ == hex(bytes@.take(i as int)),
        decreases bytes@.len() - i,
    {
        let b = bytes[i];
        out.push(digit(b / 16));
        out.push(digit(b % 16));
        assert(bytes@.take(i + 1).drop_last() =~= bytes@.take(i as int));
        assert(out@ =~= hex(bytes@.take(i as int)) + seq![hex_digit(b / 16), hex_digit(b % 16)]);
        i += 1;
    }
    assert(bytes@.take(bytes@.len() as int) =~= bytes@);
    string_from_chars(&out)
}

/// A lowercase hexadecimal digit.
pub open spec fn is_lower_hex(c: char) -> bool {
    ('0' <= c && c <= '9') || ('a' <= c && c <= 'f')
}

/// The encoding has two digits per byte, every one a lowercase hex digit.
pub proof fn lemma_hex_shape(b: Seq<u8>)
    ensures
        hex(b).len() == 2 * b.len(),
        forall|k: int| 0 <= k < hex(b).len() ==> is_lower_hex(#[trigger] hex(b)[k]),
    decreases b.len(),
{
    if b.len() > 0 {
        lemma_hex_shape(b.drop_last());
        let x = b.last();
        assert(x / 16 < 16 && x % 16 < 16);
        assert(is_lower_hex(hex_digit(x / 16)));
        assert(is_lower_hex(hex_digit(x % 16)));
        let h = hex(b.drop_last());
        assert forall|k: int| 0 <= k < hex(b).len() implies is_lower_hex(#[trigger] hex(b)[k]) by {
            if k < h.len() {
                assert(hex(b)[k] == h[k]);
            }
        }
    }
}

/// Eight bytes from the thread-local random generator (`rand::fill`); nothing
/// is known of their values.
#[verifier::external_body]
fn random_id_bytes() -> (b: [u8; 8]) {
    let mut b = [0u8; 8];
    rand::fill(&mut b[..]);
    b
}

/// A random session identifier: sixteen lowercase hex digits.
pub fn generate_id() -> (id: String)
    ensures
        id@.len() == 16,
        forall|k: int| 0 <= k < 16 ==> is_lower_hex(#[trigger] id@[k]),
{
    let bytes = random_id_bytes();
    let id = encode(bytes.as_slice());
    proof {
        lemma_hex_shape(bytes@);
    }
    id
}

/// The last `k` hexadecimal digits of `n` (lowercase, most significant
/// first, zero-padded).
pub open spec fn hex_digits(n: nat, k: nat) -> Seq<char>
    decreases k,
{
    if k == 0 {
        Seq::empty()
    } else {
        hex_digits(n / 16, (k - 1) as nat) + seq![hex_digit((n % 16) as u8)]
    }
}

fn push_hex_digits(n: u64, k: usize, out: &mut Vec<char>)
    ensures
        final(out)@ == old(out)@ + hex_digits(n as nat, k as nat),
    decreases k,
{
    if k == 0 {
        assert(hex_digits(n as nat, 0) =~= Seq::<char>::empty());
        return;
    }
    push_hex_digits(n / 16, k - 1, out);
    let d = (n % 16) as u8;
    if d < 10 {
        out.push(((48u8) + d) as char);
    } else {
        out.push(((97u8) + d - 10) as char);
    }
}

/// `n` as sixteen lowercase hexadecimal digits (`format!("{:016x}", n)`).
pub fn hex16(n: u64) -> (r: String)
    ensures
        r@ == hex_digits(n as nat, 16),
{
    let mut v: Vec<char> = Vec::new();
    push_hex_digits(n, 16, &mut v);
    assert(v@ =~= hex_digits(n as nat, 16));
    string_from_chars(&v)
}

/// A random 64-bit number from the thread-local generator
/// (`rand::random`); nothing is known of its value.
#[verifier::external_body]
pub(crate) fn random_u64() -> u64 {
    rand::random::<u64>()
}

/// A random browser-pool session identifier: two random numbers as
/// thirty-two lowercase hex digits.
pub fn new_session_id() -> (id: String)
    ensures
        id@.len() == 32,
        exists|a: u64, b: u64| id@ == hex_digits(a as nat, 16) + hex_digits(b as nat, 16),
{
    let a = random_u64();
    let b = random_u64();
    let mut id = hex16(a);
    let second = hex16(b);
    id.append(second.as_str());
    proof {
        lemma_hex_digits_len(a as nat, 16);
        lemma_hex_digits_len(b as nat, 16);
    }
    id
}

/// `hex_digits(n, k)` has `k` digits.
pub proof fn lemma_hex_digits_len(n: nat, k: nat)
    ensures
        hex_digits(n, k).len() == k,
    decreases k,
{
    if k > 0 {
        lemma_hex_digits_len(n / 16, (k - 1) as nat);
    }
}

} // verus!

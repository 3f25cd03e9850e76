//! The byte encoder of segments: big-endian bytes of a value at a given
//! width, and filler bytes for payloads that have no value of their own.

use vstd::prelude::*;
use rand::Rng;

verus! {

/// The `count` low-order bytes of `value`, lowest first.
pub open spec fn little_endian(value: int, count: nat) -> Seq<u8>
    decreases count,
{
    if count == 0 {
        Seq::empty()
    } else {
        seq![(value % 256) as u8] + little_endian(value / 256, (count - 1) as nat)
    }
}

/// The big-endian form of `value` in exactly `count` bytes: what does not
/// fit is cut off at the high end, and a wider form starts with zeros.
pub open spec fn big_endian(value: u64, count: nat) -> Seq<u8> {
    little_endian(value as int, count).reverse()
}

/// `little_endian` has as many bytes as asked for.
pub proof fn lemma_little_endian_len(value: int, count: nat)
    ensures
        little_endian(value, count).len() == count,
    decreases count,
{
    if count > 0 {
        lemma_little_endian_len(value / 256, (count - 1) as nat);
    }
}

/// The last byte of the big-endian form is the value modulo 256, whatever
/// the width: a value too wide for its segment keeps its low bytes.
pub proof fn lemma_big_endian_keeps_low_byte(value: u64, count: nat)
    requires
        count > 0,
    ensures
        big_endian(value, count).len() == count,
        big_endian(value, count).last() == (value % 256) as u8,
{
    lemma_little_endian_len(value as int, count);
    lemma_little_endian_len(value as int / 256, (count - 1) as nat);
    assert(little_endian(value as int, count)[0] == (value % 256) as u8);
}

/// The type `ThreadRng` of rand, the handle to a thread's generator. It is
/// only carried from `rand::rng` to `Rng::random`; nothing is known of it.
#[verifier::external_type_specification]
#[verifier::external_body]
pub struct ExThreadRng(rand::rngs::ThreadRng);

/// Calls `rand::rng`, which hands out the calling thread's generator.
#[verifier::external_body]
fn thread_rng() -> (rng: rand::rngs::ThreadRng) {
    rand::rng()
}

/// Calls `Rng::random::<u8>` of rand: one byte from the generator. Nothing
/// is known of the byte.
#[verifier::external_body]
fn random_byte(rng: &mut rand::rngs::ThreadRng) -> (byte: u8) {
    rng.random::<u8>()
}

/// The big-endian form of `value` in exactly `byte_count` bytes.
pub fn encode_value(value: u64, byte_count: u32) -> (bytes: Vec<u8>)
    ensures
        bytes@ == big_endian(value, byte_count as nat),
        bytes@.len() == byte_count,
{
    let mut low_first: Vec<u8> = Vec::new();
    let mut rest: u64 = value;
    let mut i: u32 = 0;
    while i < byte_count
        invariant
            i <= byte_count,
            low_first@.len() == i,
            little_endian(value as int, byte_count as nat) == low_first@ + little_endian(
                rest as int,
                (byte_count - i) as nat,
            ),
        decreases byte_count - i,
    {
        let ghost before = low_first@;
        low_first.push((rest % 256) as u8);
        assert(low_first@ + little_endian(rest as int / 256, (byte_count - i - 1) as nat)
            =~= before + little_endian(rest as int, (byte_count - i) as nat));
        rest = rest / 256;
        i += 1;
    }
    assert(low_first@ + Seq::<u8>::empty() =~= low_first@);
    let mut bytes: Vec<u8> = Vec::new();
    let mut k: usize = low_first.len();
    while k > 0
        invariant
            k <= low_first@.len(),
            bytes@.len() == low_first@.len() - k,
            forall|j: int|
                0 <= j < bytes@.len() ==> bytes@[j] == low_first@[low_first@.len() - 1 - j],
        decreases k,
    {
        k -= 1;
        bytes.push(low_first[k]);
    }
    assert(bytes@ =~= low_first@.reverse());
    bytes
}

/// `byte_count` filler bytes from the thread's random generator.
pub fn random_bytes(byte_count: u32) -> (bytes: Vec<u8>)
    ensures
        bytes@.len() == byte_count,
{
    let mut bytes: Vec<u8> = Vec::new();
    let mut rng = thread_rng();
    let mut i: u32 = 0;
    while i < byte_count
        invariant
            i <= byte_count,
            bytes@.len() == i,
        decreases byte_count - i,
    {
        bytes.push(random_byte(&mut rng));
        i += 1;
    }
    bytes
}

} // verus!

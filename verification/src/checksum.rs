//! Checksums over the body of a message: the longitudinal redundancy check
//! and the Modbus-style CRC-16.

use vstd::prelude::*;
use vstd::string::*;
use byteorder::ReadBytesExt;
use crate::conversion::Conversion;
use crate::text::{str_eq, to_lowercase, lowercase_of};

verus! {

pub const CHECKSUM_LRC: &'static str = "lrc";

pub const CHECKSUM_CRC16: &'static str = "crc16";

/// The checksum algorithms that a protocol can name.
#[derive(Clone, Copy, Debug, PartialEq, Eq, Structural)]
pub enum ChecksumKind {
    Lrc,
    Crc16,
    /// Any name other than `lrc` and `crc16`: no checksum can be computed.
    Unknown,
}

/// The algorithm that a lower-case name selects.
pub open spec fn kind_named(lower: Seq<char>) -> ChecksumKind {
    if lower == CHECKSUM_LRC@ {
        ChecksumKind::Lrc
    } else if lower == CHECKSUM_CRC16@ {
        ChecksumKind::Crc16
    } else {
        ChecksumKind::Unknown
    }
}

/// The number of bytes that a checksum of the given kind takes in a message.
pub open spec fn checksum_size(kind: ChecksumKind) -> nat {
    match kind {
        ChecksumKind::Lrc => 1,
        ChecksumKind::Crc16 => 2,
        ChecksumKind::Unknown => 0,
    }
}

/// The arithmetic sum of the bytes of `data`.
pub open spec fn byte_sum(data: Seq<u8>) -> int
    decreases data.len(),
{
    if data.len() == 0 {
        0
    } else {
        byte_sum(data.drop_last()) + data.last() as int
    }
}

/// The longitudinal redundancy check of `data`: the two's complement of the
/// sum of its bytes, modulo 256.
pub open spec fn lrc_of(data: Seq<u8>) -> u16 {
    ((256 - byte_sum(data) % 256) % 256) as u16
}

/// One step of the bit-reflected CRC-16 register with polynomial `0xA001`.
pub open spec fn crc16_shift(crc: u16) -> u16 {
    if crc & 1 != 0 {
        (crc >> 1) ^ 0xA001
    } else {
        crc >> 1
    }
}

/// `n` steps of the CRC-16 register.
pub open spec fn crc16_shift_n(crc: u16, n: nat) -> u16
    decreases n,
{
    if n == 0 {
        crc
    } else {
        crc16_shift(crc16_shift_n(crc, (n - 1) as nat))
    }
}

/// The CRC-16 register after one more byte of input.
pub open spec fn crc16_update(crc: u16, byte: u8) -> u16 {
    crc16_shift_n(crc ^ (byte as u16), 8)
}

/// The CRC-16 register after all of `data`, starting from `0xFFFF`.
pub open spec fn crc16_register(data: Seq<u8>) -> u16
    decreases data.len(),
{
    if data.len() == 0 {
        0xFFFF
    } else {
        crc16_update(crc16_register(data.drop_last()), data.last())
    }
}

/// A 16-bit value with its two bytes exchanged.
pub open spec fn swapped(x: u16) -> u16 {
    ((x as int % 256) * 256 + x as int / 256) as u16
}

/// The CRC-16 of `data` in the order in which it goes on the wire: the
/// register's low byte is the high byte of the result.
pub open spec fn crc16_of(data: Seq<u8>) -> u16 {
    swapped(crc16_register(data))
}

/// The checksum of a message body under the given algorithm.
pub open spec fn checksum_of(kind: ChecksumKind, body: Seq<u8>) -> u16 {
    match kind {
        ChecksumKind::Lrc => lrc_of(body),
        ChecksumKind::Crc16 => crc16_of(body),
        ChecksumKind::Unknown => 0,
    }
}

/// What follows the first `skip` bytes of `data`; nothing where `data` is
/// shorter than that.
pub open spec fn body_after(data: Seq<u8>, skip: nat) -> Seq<u8> {
    if skip <= data.len() {
        data.skip(skip as int)
    } else {
        Seq::empty()
    }
}

/// The checksum that a message carries at position `at`, high byte first.
pub open spec fn embedded_checksum(kind: ChecksumKind, msg: Seq<u8>, at: int) -> u16 {
    match kind {
        ChecksumKind::Lrc => msg[at] as u16,
        ChecksumKind::Crc16 => (msg[at] as int * 256 + msg[at + 1] as int) as u16,
        ChecksumKind::Unknown => 0,
    }
}

/// Whether a canonical message carries, immediately before its suffix, the
/// checksum of what stands between its prefix and that checksum. A message
/// too short to hold suffix and checksum is not valid.
pub open spec fn message_is_valid(
    kind: ChecksumKind,
    msg: Seq<u8>,
    prefix_len: nat,
    suffix_len: nat,
) -> bool {
    let size = checksum_size(kind);
    msg.len() >= suffix_len + size && {
        let end = msg.len() - suffix_len - size;
        checksum_of(kind, body_after(msg.take(end), prefix_len)) == embedded_checksum(
            kind,
            msg,
            end,
        )
    }
}

/// The bytes that carry a checksum in a message, high byte first.
pub open spec fn checksum_bytes(kind: ChecksumKind, value: u16) -> Seq<u8> {
    match kind {
        ChecksumKind::Lrc => seq![(value % 256) as u8],
        ChecksumKind::Crc16 => seq![(value / 256) as u8, (value % 256) as u8],
        ChecksumKind::Unknown => Seq::empty(),
    }
}

/// A message made of a prefix, a body, the body's checksum and a suffix is
/// valid, whatever the four hold.
pub proof fn lemma_checksummed_message_is_valid(
    kind: ChecksumKind,
    prefix: Seq<u8>,
    body: Seq<u8>,
    suffix: Seq<u8>,
)
    ensures
        message_is_valid(
            kind,
            prefix + body + checksum_bytes(kind, checksum_of(kind, body)) + suffix,
            prefix.len(),
            suffix.len(),
        ),
{
    let sum = checksum_of(kind, body);
    let carried = checksum_bytes(kind, sum);
    let msg = prefix + body + carried + suffix;
    let end = msg.len() - suffix.len() - checksum_size(kind);
    assert(end == prefix.len() + body.len());
    assert(msg.take(end) =~= prefix + body);
    assert(body_after(prefix + body, prefix.len()) =~= body);
    match kind {
        ChecksumKind::Lrc => {
            assert(msg[end] == carried[0]);
        },
        ChecksumKind::Crc16 => {
            assert(msg[end] == carried[0]);
            assert(msg[end + 1] == carried[1]);
        },
        ChecksumKind::Unknown => {},
    }
}

proof fn lemma_byte_sum_push(data: Seq<u8>, byte: u8)
    ensures
        byte_sum(data.push(byte)) == byte_sum(data) + byte as int,
{
    assert(data.push(byte).drop_last() =~= data);
}

proof fn lemma_crc16_register_push(data: Seq<u8>, byte: u8)
    ensures
        crc16_register(data.push(byte)) == crc16_update(crc16_register(data), byte),
{
    assert(data.push(byte).drop_last() =~= data);
}

/// Calls `ReadBytesExt::read_u16::<LittleEndian>` of byteorder on a byte
/// slice: it reads the first two bytes, the first as the low byte of the
/// result, and fails only where the slice holds fewer than two.
#[verifier::external_body]
fn read_u16_little_endian(bytes: &Vec<u8>) -> (value: Option<u16>)
    ensures
        bytes@.len() >= 2 ==> value == Some((bytes@[0] as int + 256 * bytes@[1] as int) as u16),
        bytes@.len() < 2 ==> value.is_none(),
{
    let mut reader = &bytes[..];
    reader.read_u16::<byteorder::LittleEndian>().ok()
}

/// Computes and checks the checksum of messages, of one algorithm and one
/// transmission mode.
pub struct Checksum {
    kind: ChecksumKind,
    conversion: Conversion,
}

impl ChecksumKind {
    /// The algorithm that a name selects, once the name is in lower case.
    pub fn from_lowercase(lower: &str) -> (kind: ChecksumKind)
        ensures
            kind == kind_named(lower@),
    {
        if str_eq(lower, CHECKSUM_LRC) {
            ChecksumKind::Lrc
        } else if str_eq(lower, CHECKSUM_CRC16) {
            ChecksumKind::Crc16
        } else {
            ChecksumKind::Unknown
        }
    }
}

impl Checksum {
    /// The algorithm in use.
    pub closed spec fn kind(&self) -> ChecksumKind {
        self.kind
    }

    /// The transcoder that normalises a message before it is checked.
    pub closed spec fn conversion(&self) -> Conversion {
        self.conversion
    }

    /// A checksum of the algorithm that `calculation` names, in any case of
    /// letters, for messages of the mode of `conversion`.
    pub fn new(calculation: &str, conversion: &Conversion) -> (checksum: Checksum)
        ensures
            checksum.kind() == kind_named(lowercase_of(calculation@)),
            checksum.conversion().mode() == conversion.mode(),
    {
        let lower = to_lowercase(calculation);
        Checksum { kind: ChecksumKind::from_lowercase(lower.as_str()), conversion: conversion.clone() }
    }

    /// A checksum of a given algorithm.
    pub fn with_kind(kind: ChecksumKind, conversion: &Conversion) -> (checksum: Checksum)
        ensures
            checksum.kind() == kind,
            checksum.conversion().mode() == conversion.mode(),
    {
        Checksum { kind, conversion: conversion.clone() }
    }

    /// The checksum of what follows the prefix in `data`.
    pub fn calculate_checksum(&self, data: &Vec<u8>, prefix: &str) -> (sum: u16)
        ensures
            sum == checksum_of(self.kind(), body_after(data@, prefix.spec_bytes().len())),
    {
        let body = Self::bytes_after(data, prefix.as_bytes().len());
        match self.kind {
            ChecksumKind::Lrc => self.calculate_lrc(&body),
            ChecksumKind::Crc16 => self.calculate_crc16(&body),
            ChecksumKind::Unknown => 0,
        }
    }

    fn bytes_after(data: &Vec<u8>, skip: usize) -> (body: Vec<u8>)
        ensures
            body@ == body_after(data@, skip as nat),
    {
        let mut body: Vec<u8> = Vec::new();
        let mut i: usize = skip;
        while i < data.len()
            invariant
                skip <= i,
                skip <= data@.len() ==> i <= data@.len() && body@ == data@.subrange(
                    skip as int,
                    i as int,
                ),
                skip > data@.len() ==> body@.len() == 0,
            decreases data@.len() - i,
        {
            body.push(data[i]);
            i += 1;
            assert(body@ =~= data@.subrange(skip as int, i as int));
        }
        assert(body@ =~= body_after(data@, skip as nat));
        body
    }

    /// The longitudinal redundancy check of `data`.
    pub fn calculate_lrc(&self, data: &Vec<u8>) -> (lrc: u16)
        ensures
            lrc == lrc_of(data@),
            lrc < 256,
    {
        let mut sum: u8 = 0;
        let mut i: usize = 0;
        while i < data.len()
            invariant
                i <= data@.len(),
                sum as int == byte_sum(data@.take(i as int)) % 256,
            decreases data@.len() - i,
        {
            proof {
                lemma_byte_sum_push(data@.take(i as int), data@[i as int]);
                assert(data@.take(i as int).push(data@[i as int]) =~= data@.take(i + 1));
            }
            sum = ((sum as u16 + data[i] as u16) % 256) as u8;
            i += 1;
        }
        assert(data@.take(i as int) =~= data@);
        (256 - sum as u16) % 256
    }

    /// The CRC-16 of `data`, with the register's low byte in the high byte
    /// of the result.
    pub fn calculate_crc16(&self, data: &Vec<u8>) -> (crc: u16)
        ensures
            crc == crc16_of(data@),
    {
        let polynomial: u16 = 0xA001;
        let mut crc: u16 = 0xFFFF;
        let mut i: usize = 0;
        while i < data.len()
            invariant
                polynomial == 0xA001,
                i <= data@.len(),
                crc == crc16_register(data@.take(i as int)),
            decreases data@.len() - i,
        {
            let ghost start = crc ^ (data@[i as int] as u16);
            crc ^= data[i] as u16;
            let mut bit: u8 = 0;
            while bit < 8
                invariant
                    polynomial == 0xA001,
                    bit <= 8,
                    crc == crc16_shift_n(start, bit as nat),
                decreases 8 - bit,
            {
                if (crc & 0x0001) != 0 {
                    crc = (crc >> 1) ^ polynomial;
                } else {
                    crc >>= 1;
                }
                bit += 1;
            }
            proof {
                lemma_crc16_register_push(data@.take(i as int), data@[i as int]);
                assert(data@.take(i as int).push(data@[i as int]) =~= data@.take(i + 1));
            }
            i += 1;
        }
        assert(data@.take(i as int) =~= data@);
        let lo_byte: u8 = (crc & 0x00FF) as u8;
        let hi_byte: u8 = ((crc >> 8) & 0x00FF) as u8;
        assert(lo_byte as int == crc as int % 256 && hi_byte as int == crc as int / 256) by {
            assert((crc & 0x00FF) == crc % 256) by (bit_vector);
            assert(((crc >> 8) & 0x00FF) == crc / 256) by (bit_vector);
        }
        let mut pair: Vec<u8> = Vec::new();
        pair.push(hi_byte);
        pair.push(lo_byte);
        match read_u16_little_endian(&pair) {
            Some(value) => value,
            None => 0,
        }
    }

    /// Whether the message carries the checksum of its own body. The message
    /// is first brought into canonical form; the checksum is looked for
    /// immediately before the suffix.
    pub fn validate_checksum_in_message(&self, message: &Vec<u8>, prefix: &str, suffix: &str) -> (valid:
        bool)
        ensures
            valid == message_is_valid(
                self.kind(),
                self.conversion().hex_form(message@, prefix@, suffix@),
                prefix.spec_bytes().len(),
                suffix.spec_bytes().len(),
            ),
    {
        let canonical: Vec<u8> = self.conversion.get_hex_message(message, prefix, suffix);
        let suffix_len: usize = suffix.as_bytes().len();
        let size: usize = self.get_size_of_checksum();
        if canonical.len() < size || canonical.len() - size < suffix_len {
            return false;
        }
        let end: usize = canonical.len() - suffix_len - size;
        let mut body: Vec<u8> = Vec::new();
        let mut i: usize = 0;
        while i < end
            invariant
                i <= end <= canonical@.len(),
                body@ == canonical@.take(i as int),
            decreases end - i,
        {
            body.push(canonical[i]);
            i += 1;
            assert(body@ =~= canonical@.take(i as int));
        }
        let received: u16 = self.get_checksum_from_byte_array(&canonical, suffix);
        let calculated: u16 = self.calculate_checksum(&body, prefix);
        calculated == received
    }

    /// The checksum that a canonical message carries before its suffix.
    pub fn get_checksum_from_byte_array(&self, message: &Vec<u8>, suffix: &str) -> (sum: u16)
        requires
            message@.len() >= checksum_size(self.kind()) + suffix.spec_bytes().len(),
        ensures
            sum == embedded_checksum(
                self.kind(),
                message@,
                message@.len() - checksum_size(self.kind()) - suffix.spec_bytes().len(),
            ),
    {
        let position: usize = message.len() - self.get_size_of_checksum() - suffix.as_bytes().len();
        match self.kind {
            ChecksumKind::Lrc => message[position] as u16,
            ChecksumKind::Crc16 => message[position] as u16 * 256 + message[position + 1] as u16,
            ChecksumKind::Unknown => 0,
        }
    }

    /// The number of bytes that the checksum takes; 0 where the algorithm is
    /// unknown.
    pub fn get_size_of_checksum(&self) -> (size: usize)
        ensures
            size == checksum_size(self.kind()),
    {
        match self.kind {
            ChecksumKind::Lrc => 1,
            ChecksumKind::Crc16 => 2,
            ChecksumKind::Unknown => 0,
        }
    }
}

impl Default for Checksum {
    fn default() -> (checksum: Checksum)
        ensures
            checksum.kind() == ChecksumKind::Unknown,
            checksum.conversion().mode() == Seq::<char>::empty(),
    {
        Checksum { kind: ChecksumKind::Unknown, conversion: Conversion::default() }
    }
}

impl Clone for Checksum {
    fn clone(&self) -> (copy: Checksum)
        ensures
            copy.kind() == self.kind(),
            copy.conversion().mode() == self.conversion().mode(),
    {
        Checksum { kind: self.kind, conversion: self.conversion.clone() }
    }
}

} // verus!

//! Transcoding between the canonical byte buffer of a message and its wire
//! form: raw bytes in `hex` mode, two hex-digit characters for each byte in
//! `ascii` mode.

use vstd::prelude::*;
use vstd::string::*;
use vstd::utf8::encode_utf8;
use crate::text::{ascii_text, contains_char, str_eq};

verus! {

pub const HEXADECIMAL_MODE: &'static str = "hex";

pub const ASCII_MODE: &'static str = "ascii";

/// Whether `b` is the ASCII code of a hexadecimal digit, in either case.
pub open spec fn is_hex_digit(b: u8) -> bool {
    (0x30 <= b && b <= 0x39) || (0x41 <= b && b <= 0x46) || (0x61 <= b && b <= 0x66)
}

/// The number that a hexadecimal digit stands for.
pub open spec fn hex_digit_value(b: u8) -> int {
    if b <= 0x39 {
        b - 0x30
    } else if b <= 0x46 {
        b - 0x41 + 10
    } else {
        b - 0x61 + 10
    }
}

/// The upper-case hexadecimal digit for a number below sixteen.
pub open spec fn hex_char(nibble: int) -> u8 {
    if nibble < 10 {
        (0x30 + nibble) as u8
    } else {
        (0x41 + nibble - 10) as u8
    }
}

/// The byte that two hexadecimal digits spell, high digit first.
pub open spec fn pair_value(high: u8, low: u8) -> u8 {
    (16 * hex_digit_value(high) + hex_digit_value(low)) as u8
}

/// Whether byte `b`, at position `index` of a message of `length` bytes, may
/// pass as a literal framing byte: it is a 7-bit character that occurs in
/// the prefix and stands within the prefix's length from the head, or occurs
/// in the suffix and stands within the suffix's length from the tail.
pub open spec fn allowed(b: u8, prefix: Seq<char>, suffix: Seq<char>, index: int, length: int) -> bool {
    b <= 127 && ((prefix.contains(b as char) && index < encode_utf8(prefix).len()) || (
    suffix.contains(b as char) && index >= length - encode_utf8(suffix).len()))
}

/// What one byte of a buffer becomes on the wire in `ascii` mode.
pub open spec fn encode_byte(b: u8, prefix: Seq<char>, suffix: Seq<char>, index: int, length: int) -> Seq<
    u8,
> {
    let high = hex_char(b as int / 16);
    let low = hex_char(b as int % 16);
    if is_hex_digit(high) && is_hex_digit(low) {
        seq![high, low]
    } else if allowed(b, prefix, suffix, index, length) {
        seq![b]
    } else {
        Seq::empty()
    }
}

/// The wire form of the first `n` bytes of `msg` in `ascii` mode.
pub open spec fn encode_upto(msg: Seq<u8>, prefix: Seq<char>, suffix: Seq<char>, n: int) -> Seq<u8>
    decreases n,
{
    if n <= 0 {
        Seq::empty()
    } else {
        encode_upto(msg, prefix, suffix, n - 1) + encode_byte(
            msg[n - 1],
            prefix,
            suffix,
            n - 1,
            msg.len() as int,
        )
    }
}

/// The wire form of `msg` in `ascii` mode.
pub open spec fn ascii_encode(msg: Seq<u8>, prefix: Seq<char>, suffix: Seq<char>) -> Seq<u8> {
    encode_upto(msg, prefix, suffix, msg.len() as int)
}

/// What a left-to-right scan of the wire bytes from position `i` on yields:
/// a framing byte passes unchanged, two adjacent hex digits give one byte,
/// and any other byte is skipped.
pub open spec fn decode_from(msg: Seq<u8>, prefix: Seq<char>, suffix: Seq<char>, i: int) -> Seq<u8>
    decreases msg.len() - i,
{
    if i < 0 || i >= msg.len() {
        Seq::empty()
    } else if allowed(msg[i], prefix, suffix, i, msg.len() as int) {
        seq![msg[i]] + decode_from(msg, prefix, suffix, i + 1)
    } else if is_hex_digit(msg[i]) && i + 1 < msg.len() && is_hex_digit(msg[i + 1]) {
        seq![pair_value(msg[i], msg[i + 1])] + decode_from(msg, prefix, suffix, i + 2)
    } else {
        decode_from(msg, prefix, suffix, i + 1)
    }
}

/// The canonical bytes that an `ascii` mode wire message stands for.
pub open spec fn ascii_decode(msg: Seq<u8>, prefix: Seq<char>, suffix: Seq<char>) -> Seq<u8> {
    decode_from(msg, prefix, suffix, 0)
}

/// Every byte is spelled by two upper-case hex digits, so in `ascii` mode
/// each byte of a buffer gives exactly its two digits.
pub proof fn lemma_encode_byte_is_two_digits(
    b: u8,
    prefix: Seq<char>,
    suffix: Seq<char>,
    index: int,
    length: int,
)
    ensures
        encode_byte(b, prefix, suffix, index, length) == seq![
            hex_char(b as int / 16),
            hex_char(b as int % 16),
        ],
        is_hex_digit(hex_char(b as int / 16)),
        is_hex_digit(hex_char(b as int % 16)),
        pair_value(hex_char(b as int / 16), hex_char(b as int % 16)) == b,
{
}

/// The digit that stands at position `j` of the `ascii` wire form of `msg`.
pub open spec fn digit_at(msg: Seq<u8>, j: int) -> u8 {
    if j % 2 == 0 {
        hex_char(msg[j / 2] as int / 16)
    } else {
        hex_char(msg[j / 2] as int % 16)
    }
}

/// The text that shows a buffer: two upper-case hex digits for each byte.
pub open spec fn hex_text(bytes: Seq<u8>) -> Seq<char> {
    Seq::new(2 * bytes.len(), |j: int| digit_at(bytes, j) as char)
}

/// The `ascii` wire form of `n` bytes has `2 * n` bytes, each the digit
/// that `digit_at` gives for its position.
pub proof fn lemma_encode_upto_shape(msg: Seq<u8>, prefix: Seq<char>, suffix: Seq<char>, n: int)
    requires
        0 <= n <= msg.len(),
    ensures
        encode_upto(msg, prefix, suffix, n).len() == 2 * n,
        forall|j: int|
            0 <= j < 2 * n ==> #[trigger] encode_upto(msg, prefix, suffix, n)[j] == digit_at(
                msg,
                j,
            ),
    decreases n,
{
    if n > 0 {
        lemma_encode_upto_shape(msg, prefix, suffix, n - 1);
        lemma_encode_byte_is_two_digits(msg[n - 1], prefix, suffix, n - 1, msg.len() as int);
        let before = encode_upto(msg, prefix, suffix, n - 1);
        let whole = encode_upto(msg, prefix, suffix, n);
        assert forall|j: int| 0 <= j < 2 * n implies #[trigger] whole[j] == digit_at(msg, j) by {
            if j < 2 * (n - 1) {
                assert(whole[j] == before[j]);
            }
        }
    }
}

proof fn lemma_decode_encoded_from(msg: Seq<u8>, prefix: Seq<char>, suffix: Seq<char>, k: int)
    requires
        0 <= k <= msg.len(),
        forall|i: int|
            0 <= i < ascii_encode(msg, prefix, suffix).len() ==> !allowed(
                #[trigger] ascii_encode(msg, prefix, suffix)[i],
                prefix,
                suffix,
                i,
                ascii_encode(msg, prefix, suffix).len() as int,
            ),
    ensures
        decode_from(ascii_encode(msg, prefix, suffix), prefix, suffix, 2 * k) == msg.skip(k),
    decreases msg.len() - k,
{
    let wire = ascii_encode(msg, prefix, suffix);
    lemma_encode_upto_shape(msg, prefix, suffix, msg.len() as int);
    if k < msg.len() {
        lemma_decode_encoded_from(msg, prefix, suffix, k + 1);
        lemma_encode_byte_is_two_digits(msg[k], prefix, suffix, k, msg.len() as int);
        assert(wire[2 * k] == digit_at(msg, 2 * k));
        assert(wire[2 * k + 1] == digit_at(msg, 2 * k + 1));
        assert(!allowed(wire[2 * k], prefix, suffix, 2 * k, wire.len() as int));
        assert(msg.skip(k) =~= seq![msg[k]] + msg.skip(k + 1));
    } else {
        assert(msg.skip(k) =~= Seq::<u8>::empty());
    }
}

/// Decoding the `ascii` wire form of a buffer gives the buffer back,
/// provided that none of the wire form's digits stands where the prefix or
/// the suffix claims it as a literal framing byte.
pub proof fn lemma_ascii_round_trip(msg: Seq<u8>, prefix: Seq<char>, suffix: Seq<char>)
    requires
        forall|i: int|
            0 <= i < ascii_encode(msg, prefix, suffix).len() ==> !allowed(
                #[trigger] ascii_encode(msg, prefix, suffix)[i],
                prefix,
                suffix,
                i,
                ascii_encode(msg, prefix, suffix).len() as int,
            ),
    ensures
        ascii_decode(ascii_encode(msg, prefix, suffix), prefix, suffix) == msg,
{
    lemma_decode_encoded_from(msg, prefix, suffix, 0);
    assert(msg.skip(0) =~= msg);
}

/// Decoding gives every buffer back where neither the prefix nor the
/// suffix holds a hexadecimal digit: no digit of the wire form can then
/// pass as a framing byte.
pub proof fn lemma_ascii_round_trip_without_digits_in_framing(
    msg: Seq<u8>,
    prefix: Seq<char>,
    suffix: Seq<char>,
)
    requires
        forall|b: u8| is_hex_digit(b) ==> !prefix.contains(b as char) && !suffix.contains(b as char),
    ensures
        ascii_decode(ascii_encode(msg, prefix, suffix), prefix, suffix) == msg,
{
    let wire = ascii_encode(msg, prefix, suffix);
    lemma_encode_upto_shape(msg, prefix, suffix, msg.len() as int);
    assert forall|i: int| 0 <= i < wire.len() implies !allowed(
        #[trigger] wire[i],
        prefix,
        suffix,
        i,
        wire.len() as int,
    ) by {
        assert(wire[i] == digit_at(msg, i));
        lemma_encode_byte_is_two_digits(msg[i / 2], prefix, suffix, i / 2, msg.len() as int);
        assert(is_hex_digit(wire[i]));
    }
    lemma_ascii_round_trip(msg, prefix, suffix);
}

/// The transcoder of one transmission mode.
pub struct Conversion {
    mode: String,
}

impl Conversion {
    /// The transmission mode's name.
    pub closed spec fn mode(&self) -> Seq<char> {
        self.mode@
    }

    /// Whether this transcoder works in `ascii` mode; in every other mode it
    /// leaves messages as they are.
    pub open spec fn is_ascii_mode(&self) -> bool {
        self.mode() == ASCII_MODE@
    }

    pub fn new(mode: &str) -> (conversion: Conversion)
        ensures
            conversion.mode() == mode@,
    {
        Conversion { mode: mode.to_owned() }
    }

    pub fn clone(&self) -> (copy: Conversion)
        ensures
            copy.mode() == self.mode(),
    {
        Conversion { mode: self.mode.clone() }
    }

    pub fn get_mode(&self) -> (mode: &String)
        ensures
            mode@ == self.mode(),
    {
        &self.mode
    }

    /// Whether a byte is the ASCII code of a hexadecimal digit.
    pub fn is_ascii(&self, byte: u8) -> (hex: bool)
        ensures
            hex == is_hex_digit(byte),
    {
        (byte >= 0x30 && byte <= 0x39) || (byte >= 0x41 && byte <= 0x46) || (byte >= 0x61 && byte
            <= 0x66)
    }

    /// Whether a byte may pass as a literal byte of the prefix or suffix at
    /// the given position of a message of the given length.
    pub fn is_allowed(&self, b: u8, prefix: &str, suffix: &str, index: i32, length: i32) -> (yes:
        bool)
        ensures
            yes == allowed(b, prefix@, suffix@, index as int, length as int),
    {
        if b > 127 {
            return false;
        }
        let c: char = b as char;
        let at_head: bool = index < 0 || (index as usize) < prefix.as_bytes().len();
        let distance: i64 = length as i64 - index as i64;
        let at_tail: bool = distance <= 0 || (distance as u64) <= suffix.as_bytes().len() as u64;
        let in_prefix: bool = contains_char(prefix, c);
        let in_suffix: bool = contains_char(suffix, c);
        (in_prefix && at_head) || (in_suffix && at_tail)
    }

    fn allowed_at(b: u8, prefix: &str, suffix: &str, index: usize, length: usize) -> (yes: bool)
        requires
            index < length,
        ensures
            yes == allowed(b, prefix@, suffix@, index as int, length as int),
    {
        if b > 127 {
            return false;
        }
        let c: char = b as char;
        let at_head: bool = index < prefix.as_bytes().len();
        let at_tail: bool = length - index <= suffix.as_bytes().len();
        let in_prefix: bool = contains_char(prefix, c);
        let in_suffix: bool = contains_char(suffix, c);
        (in_prefix && at_head) || (in_suffix && at_tail)
    }

    fn hex_char_of(nibble: u8) -> (c: u8)
        requires
            nibble < 16,
        ensures
            c == hex_char(nibble as int),
    {
        if nibble < 10 {
            0x30 + nibble
        } else {
            0x41 + (nibble - 10)
        }
    }

    fn hex_value_of(digit: u8) -> (v: u8)
        requires
            is_hex_digit(digit),
        ensures
            v == hex_digit_value(digit),
            v < 16,
    {
        if digit <= 0x39 {
            digit - 0x30
        } else if digit <= 0x46 {
            digit - 0x41 + 10
        } else {
            digit - 0x61 + 10
        }
    }

    /// Renders a buffer in `ascii` wire form: two upper-case hex digits for
    /// each byte.
    pub fn from_hex_to_ascii(&self, message: &Vec<u8>, prefix: &str, suffix: &str) -> (wire: Vec<
        u8,
    >)
        ensures
            wire@ == ascii_encode(message@, prefix@, suffix@),
            wire@.len() == 2 * message@.len(),
    {
        let mut wire: Vec<u8> = Vec::new();
        let length: usize = message.len();
        let mut index: usize = 0;
        while index < length
            invariant
                length == message@.len(),
                index <= length,
                wire@ == encode_upto(message@, prefix@, suffix@, index as int),
            decreases length - index,
        {
            let byte: u8 = message[index];
            let high: u8 = Self::hex_char_of(byte / 16);
            let low: u8 = Self::hex_char_of(byte % 16);
            if self.is_ascii(high) && self.is_ascii(low) {
                wire.push(high);
                wire.push(low);
                assert(wire@ =~= encode_upto(message@, prefix@, suffix@, index as int) + seq![
                    high,
                    low,
                ]);
            } else if Self::allowed_at(byte, prefix, suffix, index, length) {
                wire.push(byte);
                assert(wire@ =~= encode_upto(message@, prefix@, suffix@, index as int) + seq![byte]);
            } else {
                assert(wire@ =~= encode_upto(message@, prefix@, suffix@, index as int)
                    + Seq::<u8>::empty());
            }
            index += 1;
        }
        proof {
            lemma_encode_upto_shape(message@, prefix@, suffix@, length as int);
        }
        wire
    }

    /// Reads an `ascii` wire message back into canonical bytes. A byte that
    /// is neither a framing byte nor part of a pair of hex digits is lost.
    pub fn from_ascii_to_hex(&self, message: &Vec<u8>, prefix: &str, suffix: &str) -> (bytes: Vec<
        u8,
    >)
        ensures
            bytes@ == ascii_decode(message@, prefix@, suffix@),
    {
        let mut bytes: Vec<u8> = Vec::new();
        let length: usize = message.len();
        let mut index: usize = 0;
        while index < length
            invariant
                length == message@.len(),
                index <= length,
                bytes@ + decode_from(message@, prefix@, suffix@, index as int) == decode_from(
                    message@,
                    prefix@,
                    suffix@,
                    0,
                ),
            decreases length - index,
        {
            let ghost before = bytes@;
            let ghost rest = decode_from(message@, prefix@, suffix@, index as int);
            if Self::allowed_at(message[index], prefix, suffix, index, length) {
                bytes.push(message[index]);
                index += 1;
                assert(bytes@ + decode_from(message@, prefix@, suffix@, index as int) =~= before
                    + rest);
            } else if self.is_ascii(message[index]) && index + 1 < length && self.is_ascii(
                message[index + 1],
            ) {
                let high: u8 = Self::hex_value_of(message[index]);
                let low: u8 = Self::hex_value_of(message[index + 1]);
                bytes.push(16 * high + low);
                index += 2;
                assert(bytes@ + decode_from(message@, prefix@, suffix@, index as int) =~= before
                    + rest);
            } else {
                index += 1;
            }
        }
        assert(bytes@ + Seq::<u8>::empty() =~= bytes@);
        bytes
    }

    /// The text that shows a wire message: the hex digits of its canonical
    /// bytes.
    pub fn display(&self, message: &Vec<u8>, prefix: &str, suffix: &str) -> (text: String)
        ensures
            text@ == hex_text(self.hex_form(message@, prefix@, suffix@)),
    {
        let bytes: Vec<u8> = self.get_hex_message(message, prefix, suffix);
        let digits: Vec<u8> = self.from_hex_to_ascii(&bytes, prefix, suffix);
        proof {
            lemma_encode_upto_shape(bytes@, prefix@, suffix@, bytes@.len() as int);
        }
        let text = ascii_text(digits);
        assert(text@ =~= hex_text(bytes@));
        text
    }

    /// The canonical bytes of a wire message in this transcoder's mode.
    pub fn get_hex_message(&self, message: &Vec<u8>, prefix: &str, suffix: &str) -> (bytes: Vec<
        u8,
    >)
        ensures
            bytes@ == self.hex_form(message@, prefix@, suffix@),
    {
        if str_eq(self.mode.as_str(), ASCII_MODE) {
            return self.from_ascii_to_hex(message, prefix, suffix);
        }
        message.clone()
    }

    /// The wire form of a buffer in this transcoder's mode.
    pub fn get_converted_message(&self, message: &Vec<u8>, prefix: &str, suffix: &str) -> (wire:
        Vec<u8>)
        ensures
            wire@ == self.wire_form(message@, prefix@, suffix@),
    {
        if str_eq(self.mode.as_str(), ASCII_MODE) {
            return self.from_hex_to_ascii(message, prefix, suffix);
        }
        message.clone()
    }

    /// The canonical bytes of a wire message: decoded in `ascii` mode, the
    /// message itself in any other.
    pub open spec fn hex_form(&self, message: Seq<u8>, prefix: Seq<char>, suffix: Seq<char>) -> Seq<u8> {
        if self.is_ascii_mode() {
            ascii_decode(message, prefix, suffix)
        } else {
            message
        }
    }

    /// The wire form of a buffer: encoded in `ascii` mode, the buffer itself
    /// in any other.
    pub open spec fn wire_form(&self, message: Seq<u8>, prefix: Seq<char>, suffix: Seq<char>) -> Seq<u8> {
        if self.is_ascii_mode() {
            ascii_encode(message, prefix, suffix)
        } else {
            message
        }
    }
}

impl Default for Conversion {
    fn default() -> (conversion: Conversion)
        ensures
            conversion.mode() == Seq::<char>::empty(),
    {
        Conversion { mode: String::new() }
    }
}

/// In every mode, the canonical bytes of the wire form of a buffer are the
/// buffer itself, provided that in `ascii` mode no digit of the wire form
/// stands where it passes as a framing byte.
pub proof fn lemma_wire_round_trip(
    conversion: Conversion,
    msg: Seq<u8>,
    prefix: Seq<char>,
    suffix: Seq<char>,
)
    requires
        conversion.is_ascii_mode() ==> forall|i: int|
            0 <= i < ascii_encode(msg, prefix, suffix).len() ==> !allowed(
                #[trigger] ascii_encode(msg, prefix, suffix)[i],
                prefix,
                suffix,
                i,
                ascii_encode(msg, prefix, suffix).len() as int,
            ),
    ensures
        conversion.hex_form(conversion.wire_form(msg, prefix, suffix), prefix, suffix) == msg,
{
    if conversion.is_ascii_mode() {
        lemma_ascii_round_trip(msg, prefix, suffix);
    }
}

} // verus!

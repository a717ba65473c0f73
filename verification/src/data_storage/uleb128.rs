//! ULEB128: a variable-length, self-terminating encoding of unsigned 32-bit
//! integers.
//!
//! Every byte carries seven data bits, least-significant group first. The
//! high bit of a byte says that another byte follows, so `300` is written as
//! `[0xAC, 0x02]` and any value below 128 as a single byte.

use vstd::prelude::*;
use vstd::slice::*;
use vstd::string::*;

verus! {

/// Why a byte sequence is not the encoding of a `u32`.
#[derive(Debug, Clone, PartialEq)]
pub enum Uleb128Error {
    /// The fifth byte carries data bits that do not fit in 32 bits.
    ValueTooLarge,
    /// The input ended before a byte without the continuation bit.
    IncompleteEncoding,
    /// More than five bytes carry the continuation bit.
    EncodingTooLong,
    /// The byte source failed; the text is the source's own message.
    IoError(String),
}

impl Uleb128Error {
    /// The error in words.
    pub open spec fn spec_message(self) -> Seq<char> {
        match self {
            Uleb128Error::ValueTooLarge => "ULEB128 value too large for u32"@,
            Uleb128Error::IncompleteEncoding => "Incomplete ULEB128 encoding"@,
            Uleb128Error::EncodingTooLong => "ULEB128 encoding too long"@,
            Uleb128Error::IoError(text) => "IO error: "@ + text@,
        }
    }

    /// The error in words.
    pub fn message(&self) -> (text: String)
        ensures
            text@ == self.spec_message(),
    {
        match self {
            Uleb128Error::ValueTooLarge => String::from_str("ULEB128 value too large for u32"),
            Uleb128Error::IncompleteEncoding => String::from_str("Incomplete ULEB128 encoding"),
            Uleb128Error::EncodingTooLong => String::from_str("ULEB128 encoding too long"),
            Uleb128Error::IoError(source) => {
                let mut text = String::from_str("IO error: ");
                text.append(source.as_str());
                text
            },
        }
    }
}

/// The place value of the group at `index`, for the five groups of a 32-bit
/// value: 128 to the power `index`.
pub open spec fn spec_group_weight(index: nat) -> nat {
    if index == 0 {
        1
    } else if index == 1 {
        128
    } else if index == 2 {
        16_384
    } else if index == 3 {
        2_097_152
    } else {
        268_435_456
    }
}

/// What the groups from `index` on must stay below, for the five groups of a
/// 32-bit value: 2 to the power `32 - 7 * index`.
pub open spec fn spec_group_limit(index: nat) -> nat {
    if index == 0 {
        0x1_0000_0000
    } else if index == 1 {
        0x200_0000
    } else if index == 2 {
        0x4_0000
    } else if index == 3 {
        0x800
    } else {
        0x10
    }
}

/// Number of bytes in the encoding of `value`.
pub open spec fn spec_encoded_size(value: nat) -> nat
    decreases value,
{
    if value < 128 {
        1
    } else {
        1 + spec_encoded_size(value / 128)
    }
}

/// The encoding of `value`: the low seven bits first, the high bit set on
/// every byte but the last.
pub open spec fn spec_encode(value: nat) -> Seq<u8>
    decreases value,
{
    if value < 128 {
        seq![value as u8]
    } else {
        seq![(value % 128 + 128) as u8] + spec_encode(value / 128)
    }
}

/// What decoding finds in `bytes` when `depth` groups were consumed before
/// them: the value of the remaining groups and how many bytes they take.
///
/// A sixth byte is never read, and the fifth may hold four data bits only.
pub open spec fn spec_decode_groups(bytes: Seq<u8>, depth: nat) -> Result<(nat, nat), Uleb128Error>
    decreases bytes.len(),
{
    if bytes.len() == 0 {
        Err(Uleb128Error::IncompleteEncoding)
    } else if depth >= 5 {
        Err(Uleb128Error::EncodingTooLong)
    } else if depth == 4 && bytes[0] % 128 > 15 {
        Err(Uleb128Error::ValueTooLarge)
    } else if bytes[0] < 128 {
        Ok((bytes[0] as nat, 1))
    } else {
        match spec_decode_groups(bytes.skip(1), depth + 1) {
            Ok((rest, used)) => Ok(((bytes[0] % 128) as nat + 128 * rest, used + 1)),
            Err(e) => Err(e),
        }
    }
}

/// The value at the start of `bytes` and the number of bytes it occupies.
pub open spec fn spec_decode(bytes: Seq<u8>) -> Result<(nat, nat), Uleb128Error> {
    spec_decode_groups(bytes, 0)
}

/// The value of the first `count` groups of `bytes`: the data bits of each
/// byte at the place of its group.
pub open spec fn spec_groups_value(bytes: Seq<u8>, count: nat) -> nat
    decreases count,
{
    if count == 0 {
        0
    } else {
        spec_groups_value(bytes, (count - 1) as nat) + ((bytes[count - 1] % 128) as nat)
            * spec_group_weight((count - 1) as nat)
    }
}

/// Whether the first `used` bytes of `bytes` encode a value: there are one to
/// five of them, the last and no other is without the continuation bit, and a
/// fifth one holds no more than four data bits.
pub open spec fn spec_is_encoding(bytes: Seq<u8>, used: nat) -> bool {
    &&& 1 <= used <= 5
    &&& used <= bytes.len()
    &&& bytes[used - 1] < 128
    &&& forall|i: int| 0 <= i < used - 1 ==> bytes[i] >= 128
    &&& used == 5 ==> bytes[4] <= 15
}

/// `outcome`, found after `depth` groups that add up to `acc`, seen from the
/// start of the input.
pub open spec fn spec_resume(acc: nat, depth: nat, outcome: Result<(nat, nat), Uleb128Error>)
    -> Result<(nat, nat), Uleb128Error> {
    match outcome {
        Ok((rest, used)) => Ok((acc + spec_group_weight(depth) * rest, used + depth)),
        Err(e) => Err(e),
    }
}

/// Decoding in plain words. It succeeds on an encoding, with the value of its
/// groups. It is incomplete where the input ends after at most five bytes that
/// all announce another. It is too long where a sixth byte is announced. And
/// the value is too large where the fifth byte holds more than four data bits,
/// whether or not it announces another byte.
pub proof fn lemma_decode_in_words(bytes: Seq<u8>)
    ensures
        forall|used: nat|
            spec_is_encoding(bytes, used) ==> spec_decode(bytes) == Ok::<
                (nat, nat),
                Uleb128Error,
            >((spec_groups_value(bytes, used), used)),
        spec_decode(bytes) is Ok ==> spec_is_encoding(bytes, spec_decode(bytes)->Ok_0.1),
        spec_decode(bytes) == Err::<(nat, nat), Uleb128Error>(Uleb128Error::IncompleteEncoding)
            <==> bytes.len() <= 5 && (forall|i: int| 0 <= i < bytes.len() ==> bytes[i] >= 128) && (
        bytes.len() == 5 ==> bytes[4] % 128 <= 15),
        spec_decode(bytes) == Err::<(nat, nat), Uleb128Error>(Uleb128Error::EncodingTooLong)
            <==> bytes.len() >= 6 && (forall|i: int| 0 <= i < 5 ==> bytes[i] >= 128) && bytes[4]
            % 128 <= 15,
        spec_decode(bytes) == Err::<(nat, nat), Uleb128Error>(Uleb128Error::ValueTooLarge)
            <==> bytes.len() >= 5 && (forall|i: int| 0 <= i < 4 ==> bytes[i] >= 128) && bytes[4]
            % 128 > 15,
{
    let len = bytes.len();
    assert forall|used: nat| spec_is_encoding(bytes, used) implies spec_decode(bytes) == Ok::<
        (nat, nat),
        Uleb128Error,
    >((spec_groups_value(bytes, used), used)) by {
        lemma_decode_behind_continuations(bytes, (used - 1) as nat);
        lemma_resume_step(
            bytes.skip(used - 1),
            spec_groups_value(bytes, (used - 1) as nat),
            (used - 1) as nat,
        );
    }
    // the bytes that announce another, up to the first that does not
    if len == 0 || bytes[0] < 128 {
        lemma_decode_stops(bytes, 0);
    } else if len == 1 || bytes[1] < 128 {
        lemma_decode_stops(bytes, 1);
    } else if len == 2 || bytes[2] < 128 {
        lemma_decode_stops(bytes, 2);
    } else if len == 3 || bytes[3] < 128 {
        lemma_decode_stops(bytes, 3);
    } else if len == 4 || bytes[4] < 128 || bytes[4] % 128 > 15 {
        lemma_decode_stops(bytes, 4);
    } else {
        lemma_decode_stops(bytes, 5);
    }
}

/// Behind `count` bytes that announce another, decoding goes on with the
/// value of their groups.
proof fn lemma_decode_behind_continuations(bytes: Seq<u8>, count: nat)
    requires
        count <= 5,
        count <= bytes.len(),
        forall|i: int| 0 <= i < count ==> bytes[i] >= 128,
        count == 5 ==> bytes[4] % 128 <= 15,
    ensures
        spec_decode(bytes) == spec_resume(
            spec_groups_value(bytes, count),
            count,
            spec_decode_groups(bytes.skip(count as int), count),
        ),
    decreases count,
{
    if count == 0 {
        assert(bytes.skip(0) =~= bytes);
    } else {
        let before = (count - 1) as nat;
        lemma_decode_behind_continuations(bytes, before);
        lemma_resume_step(bytes.skip(before as int), spec_groups_value(bytes, before), before);
        assert(bytes.skip(before as int).skip(1) =~= bytes.skip(count as int));
    }
}

/// What decoding comes to where the first byte that does not announce
/// another, or that holds too many data bits, stands at `count`, or the input
/// ends there.
proof fn lemma_decode_stops(bytes: Seq<u8>, count: nat)
    requires
        count <= 5,
        count <= bytes.len(),
        forall|i: int| 0 <= i < count ==> bytes[i] >= 128,
        count == 5 ==> bytes[4] % 128 <= 15,
        count < 5 ==> count == bytes.len() || bytes[count as int] < 128 || (count == 4 && bytes[4]
            % 128 > 15),
    ensures
        spec_decode(bytes) == if count == bytes.len() {
            Err::<(nat, nat), Uleb128Error>(Uleb128Error::IncompleteEncoding)
        } else if count == 5 {
            Err::<(nat, nat), Uleb128Error>(Uleb128Error::EncodingTooLong)
        } else if count == 4 && bytes[4] % 128 > 15 {
            Err::<(nat, nat), Uleb128Error>(Uleb128Error::ValueTooLarge)
        } else {
            Ok::<(nat, nat), Uleb128Error>((spec_groups_value(bytes, count + 1), count + 1))
        },
        spec_decode(bytes) is Ok ==> spec_is_encoding(bytes, count + 1),
{
    lemma_decode_behind_continuations(bytes, count);
    let rest = bytes.skip(count as int);
    if count < bytes.len() && count < 5 && !(count == 4 && bytes[4] % 128 > 15) {
        assert(rest[0] == bytes[count as int]);
        lemma_resume_step(rest, spec_groups_value(bytes, count), count);
    }
}

/// The encoded size by ranges of the value.
pub proof fn lemma_encoded_size_ranges(value: nat)
    requires
        value <= u32::MAX,
    ensures
        1 <= spec_encoded_size(value) <= 5,
        value < 128 <==> spec_encoded_size(value) == 1,
        128 <= value < 16_384 <==> spec_encoded_size(value) == 2,
        16_384 <= value < 2_097_152 <==> spec_encoded_size(value) == 3,
        2_097_152 <= value < 268_435_456 <==> spec_encoded_size(value) == 4,
        268_435_456 <= value <==> spec_encoded_size(value) == 5,
{
    reveal_with_fuel(spec_encoded_size, 6);
}

/// The encoding is as long as `spec_encoded_size` says.
pub proof fn lemma_encode_len(value: nat)
    ensures
        spec_encode(value).len() == spec_encoded_size(value),
    decreases value,
{
    if value >= 128 {
        lemma_encode_len(value / 128);
    }
}

/// Every byte of an encoding but the last has the continuation bit, and the
/// last has not.
pub proof fn lemma_encode_continuation(value: nat, i: int)
    requires
        0 <= i < spec_encode(value).len(),
    ensures
        i + 1 < spec_encode(value).len() ==> spec_encode(value)[i] >= 128,
        i + 1 == spec_encode(value).len() ==> spec_encode(value)[i] < 128,
    decreases value,
{
    if value >= 128 {
        lemma_encode_len(value / 128);
        if i > 0 {
            lemma_encode_continuation(value / 128, i - 1);
        }
    }
}

proof fn lemma_decode_groups_of_encoding(value: nat, tail: Seq<u8>, depth: nat)
    requires
        depth <= 4,
        value < spec_group_limit(depth),
    ensures
        spec_decode_groups(spec_encode(value) + tail, depth) == Ok::<(nat, nat), Uleb128Error>(
            (value, spec_encoded_size(value)),
        ),
    decreases value,
{
    let bytes = spec_encode(value) + tail;
    if value >= 128 {
        assert(depth < 4 && value / 128 < spec_group_limit(depth + 1));
        lemma_decode_groups_of_encoding(value / 128, tail, depth + 1);
        assert(bytes.skip(1) =~= spec_encode(value / 128) + tail);
        assert(bytes[0] == (value % 128 + 128) as u8);
    } else {
        assert(bytes[0] == value as u8);
    }
}

/// Decoding reads back what encoding wrote, whatever follows it.
pub proof fn lemma_decode_encode(value: u32, tail: Seq<u8>)
    ensures
        spec_decode(spec_encode(value as nat) + tail) == Ok::<(nat, nat), Uleb128Error>(
            (value as nat, spec_encoded_size(value as nat)),
        ),
{
    lemma_decode_groups_of_encoding(value as nat, tail, 0);
}

/// A decoded value fits in 32 bits and takes between one and five bytes, all
/// of them inside the input.
pub proof fn lemma_decode_bounds(bytes: Seq<u8>)
    ensures
        match spec_decode(bytes) {
            Ok((value, used)) => value <= u32::MAX && 1 <= used <= 5 && used <= bytes.len(),
            Err(_) => true,
        },
{
    lemma_decode_groups_bounds(bytes, 0);
}

proof fn lemma_decode_groups_bounds(bytes: Seq<u8>, depth: nat)
    requires
        depth <= 5,
    ensures
        match spec_decode_groups(bytes, depth) {
            Ok((value, used)) => value < spec_group_limit(depth) && 1 <= used && used + depth <= 5
                && used <= bytes.len(),
            Err(_) => true,
        },
    decreases bytes.len(),
{
    if bytes.len() > 0 && depth < 5 && bytes[0] >= 128 && !(depth == 4 && bytes[0] % 128 > 15) {
        lemma_decode_groups_bounds(bytes.skip(1), depth + 1);
    }
}

/// Decoding looks at the bytes it consumes and at nothing behind them.
pub proof fn lemma_decode_prefix(bytes: Seq<u8>, other: Seq<u8>)
    requires
        spec_decode(bytes) is Ok,
        spec_decode(bytes)->Ok_0.1 <= other.len(),
        other.subrange(0, spec_decode(bytes)->Ok_0.1 as int) == bytes.subrange(
            0,
            spec_decode(bytes)->Ok_0.1 as int,
        ),
    ensures
        spec_decode(other) == spec_decode(bytes),
{
    lemma_decode_bounds(bytes);
    lemma_decode_groups_prefix(bytes, other, 0);
}

proof fn lemma_decode_groups_prefix(bytes: Seq<u8>, other: Seq<u8>, depth: nat)
    requires
        spec_decode_groups(bytes, depth) is Ok,
        spec_decode_groups(bytes, depth)->Ok_0.1 <= other.len(),
        spec_decode_groups(bytes, depth)->Ok_0.1 <= bytes.len(),
        other.subrange(0, spec_decode_groups(bytes, depth)->Ok_0.1 as int) == bytes.subrange(
            0,
            spec_decode_groups(bytes, depth)->Ok_0.1 as int,
        ),
    ensures
        spec_decode_groups(other, depth) == spec_decode_groups(bytes, depth),
    decreases bytes.len(),
{
    let used = spec_decode_groups(bytes, depth)->Ok_0.1 as int;
    assert(used >= 1);
    assert(other[0] == other.subrange(0, used)[0]);
    assert(bytes[0] == bytes.subrange(0, used)[0]);
    if bytes[0] >= 128 {
        let inner = spec_decode_groups(bytes.skip(1), depth + 1)->Ok_0.1 as int;
        assert(inner + 1 == used);
        assert(other.skip(1).subrange(0, inner) =~= other.subrange(0, used).skip(1));
        assert(bytes.skip(1).subrange(0, inner) =~= bytes.subrange(0, used).skip(1));
        lemma_decode_groups_prefix(bytes.skip(1), other.skip(1), depth + 1);
    }
}

proof fn lemma_resume_step(bytes: Seq<u8>, acc: nat, depth: nat)
    requires
        bytes.len() > 0,
        depth < 5,
        !(depth == 4 && bytes[0] % 128 > 15),
    ensures
        bytes[0] < 128 ==> spec_resume(acc, depth, spec_decode_groups(bytes, depth)) == Ok::<
            (nat, nat),
            Uleb128Error,
        >((acc + (bytes[0] as nat) * spec_group_weight(depth), depth + 1)),
        bytes[0] >= 128 ==> spec_resume(acc, depth, spec_decode_groups(bytes, depth))
            == spec_resume(
            acc + ((bytes[0] % 128) as nat) * spec_group_weight(depth),
            depth + 1,
            spec_decode_groups(bytes.skip(1), depth + 1),
        ),
{
    let inner = spec_decode_groups(bytes.skip(1), depth + 1);
    if depth == 0 {
        assert(spec_group_weight(depth) == 1 && spec_group_weight(depth + 1) == 128);
    } else if depth == 1 {
        assert(spec_group_weight(depth) == 128 && spec_group_weight(depth + 1) == 16_384);
    } else if depth == 2 {
        assert(spec_group_weight(depth) == 16_384 && spec_group_weight(depth + 1) == 2_097_152);
    } else if depth == 3 {
        assert(spec_group_weight(depth) == 2_097_152 && spec_group_weight(depth + 1)
            == 268_435_456);
    } else {
        assert(inner is Err);
    }
}

proof fn lemma_low_bits(value: u32)
    by (bit_vector)
    ensures
        value & 0x7F == value % 128,
        value >> 7 == value / 128,
{
}

proof fn lemma_byte_bits(byte: u8)
    by (bit_vector)
    ensures
        byte & 0x7F == byte % 128,
        (byte & 0x80 == 0) <==> byte < 128,
        byte < 128 ==> byte | 0x80 == byte + 128,
{
}

proof fn lemma_place_group(acc: u32, bits: u32, shift: u32)
    by (bit_vector)
    requires
        bits < 128,
        shift == 0 ==> acc == 0,
        shift == 7 ==> acc < 128,
        shift == 14 ==> acc < 16_384,
        shift == 21 ==> acc < 2_097_152,
        shift == 28 ==> acc < 268_435_456 && bits <= 15,
    ensures
        shift == 0 ==> acc | (bits << shift) == bits,
        shift == 7 ==> acc | (bits << shift) == acc + bits * 128,
        shift == 14 ==> acc | (bits << shift) == acc + bits * 16_384,
        shift == 21 ==> acc | (bits << shift) == acc + bits * 2_097_152,
        shift == 28 ==> acc | (bits << shift) == acc + bits * 268_435_456,
{
}

/// Whether another byte follows `byte` in an encoding.
pub fn has_continuation(byte: u8) -> (yes: bool)
    ensures
        yes == (byte >= 128),
{
    proof {
        lemma_byte_bits(byte);
    }
    (byte & 0x80) != 0
}

/// Appends the encoding of `value` to `out`.
pub fn encode_into(value: u32, out: &mut Vec<u8>)
    ensures
        final(out)@ == old(out)@ + spec_encode(value as nat),
{
    let mut rest: u32 = value;
    let ghost mut written: Seq<u8> = Seq::empty();
    assert(out@ =~= old(out)@ + written);
    loop
        invariant_except_break
            out@ == old(out)@ + written,
            written + spec_encode(rest as nat) == spec_encode(value as nat),
        ensures
            out@ == old(out)@ + spec_encode(value as nat),
        decreases rest,
    {
        proof {
            lemma_low_bits(rest);
        }
        let mut byte: u8 = (rest & 0x7F) as u8;
        let ghost before = rest;
        rest = rest >> 7;
        if rest != 0 {
            proof {
                lemma_byte_bits(byte);
            }
            byte = byte | 0x80;
        }
        let ghost so_far = written;
        out.push(byte);
        proof {
            written = written.push(byte);
            assert(out@ =~= old(out)@ + written);
        }
        if rest == 0 {
            assert(spec_encode(before as nat) == seq![byte]);
            assert(written =~= so_far + seq![byte]);
            break ;
        }
        assert(written + spec_encode(rest as nat) =~= so_far + (seq![byte] + spec_encode(
            rest as nat,
        )));
    }
}

/// Encodes `value` in the fewest bytes: one to five.
pub fn encode(value: u32) -> (result: Vec<u8>)
    ensures
        result@ == spec_encode(value as nat),
        result@.len() == spec_encoded_size(value as nat),
{
    let mut result: Vec<u8> = Vec::new();
    encode_into(value, &mut result);
    proof {
        lemma_encode_len(value as nat);
        assert(result@ =~= spec_encode(value as nat));
    }
    result
}

/// Reads one value from the start of `bytes` and says how many bytes it took.
///
/// Fails with `IncompleteEncoding` where the input ends before a byte without
/// the continuation bit, with `ValueTooLarge` where the fifth byte holds more
/// than four data bits, and with `EncodingTooLong` where a sixth byte would
/// have to be read.
pub fn decode(bytes: &[u8]) -> (result: Result<(u32, usize), Uleb128Error>)
    ensures
        match result {
            Ok((value, used)) => spec_decode(bytes@) == Ok::<(nat, nat), Uleb128Error>(
                (value as nat, used as nat),
            ),
            Err(e) => spec_decode(bytes@) == Err::<(nat, nat), Uleb128Error>(e),
        },
{
    let mut result: u32 = 0;
    let mut shift: u32 = 0;
    let mut bytes_read: usize = 0;
    assert(bytes@.skip(0) =~= bytes@);
    while bytes_read < bytes.len()
        invariant
            bytes_read <= bytes.len(),
            bytes_read <= 5,
            shift == 7 * bytes_read,
            bytes_read < 5 ==> result < spec_group_weight(bytes_read as nat),
            spec_decode(bytes@) == spec_resume(
                result as nat,
                bytes_read as nat,
                spec_decode_groups(bytes@.skip(bytes_read as int), bytes_read as nat),
            ),
        decreases bytes.len() - bytes_read,
    {
        let byte: u8 = bytes[bytes_read];
        let ghost here = bytes@.skip(bytes_read as int);
        assert(here[0] == byte);
        assert(here.skip(1) =~= bytes@.skip(bytes_read + 1));
        if bytes_read >= 5 {
            return Err(Uleb128Error::EncodingTooLong);
        }
        proof {
            lemma_byte_bits(byte);
        }
        let value_bits: u32 = (byte & 0x7F) as u32;
        if shift == 28 && value_bits > 0x0F {
            return Err(Uleb128Error::ValueTooLarge);
        }
        proof {
            lemma_place_group(result, value_bits, shift);
            lemma_resume_step(here, result as nat, bytes_read as nat);
        }
        result = result | (value_bits << shift);
        shift = shift + 7;
        bytes_read = bytes_read + 1;
        if (byte & 0x80) == 0 {
            return Ok((result, bytes_read));
        }
    }
    Err(Uleb128Error::IncompleteEncoding)
}

/// The number of bytes `encode` produces for `value`, without building them.
pub fn encoded_size(value: u32) -> (size: usize)
    ensures
        size == spec_encoded_size(value as nat),
        size == spec_encode(value as nat).len(),
        1 <= size <= 5,
{
    proof {
        lemma_encoded_size_ranges(value as nat);
        lemma_encode_len(value as nat);
    }
    if value == 0 {
        return 1;
    }
    let mut size: usize = 0;
    let mut rest: u32 = value;
    while rest > 0
        invariant
            size <= 5,
            rest > 0 ==> size + spec_encoded_size(rest as nat) == spec_encoded_size(value as nat),
            rest == 0 ==> size == spec_encoded_size(value as nat),
            spec_encoded_size(value as nat) <= 5,
        decreases rest,
    {
        proof {
            lemma_low_bits(rest);
        }
        size = size + 1;
        rest = rest >> 7;
    }
    size
}

/// Bytes that are read from front to back, a value at a time.
pub struct ByteReader<'a> {
    bytes: &'a [u8],
    position: usize,
}

/// The state of a `ByteReader`: the bytes and how many of them were read.
pub struct ByteReaderView {
    pub bytes: Seq<u8>,
    pub position: nat,
}

impl ByteReaderView {
    /// The bytes that are still to be read.
    pub open spec fn remaining(self) -> Seq<u8> {
        self.bytes.skip(self.position as int)
    }
}

impl<'a> View for ByteReader<'a> {
    type V = ByteReaderView;

    closed spec fn view(&self) -> ByteReaderView {
        ByteReaderView { bytes: self.bytes@, position: self.position as nat }
    }
}

impl<'a> ByteReader<'a> {
    /// What holds of every reader: it has not read past the end.
    pub open spec fn wf(&self) -> bool {
        self@.position <= self@.bytes.len()
    }

    /// A reader at the start of `bytes`.
    pub fn new(bytes: &'a [u8]) -> (reader: Self)
        ensures
            reader@ == (ByteReaderView { bytes: bytes@, position: 0 }),
            reader.wf(),
    {
        ByteReader { bytes, position: 0 }
    }

    /// The number of bytes read so far.
    pub fn position(&self) -> (position: usize)
        ensures
            position == self@.position,
    {
        self.position
    }
}

/// Reads one value from `reader`, under the rules of `decode`. The reader
/// moves behind the value; where there is none, it stays where it was.
pub fn read_from_reader(reader: &mut ByteReader) -> (result: Result<u32, Uleb128Error>)
    requires
        old(reader).wf(),
    ensures
        final(reader).wf(),
        final(reader)@.bytes == old(reader)@.bytes,
        match result {
            Ok(value) => spec_decode(old(reader)@.remaining()) == Ok::<(nat, nat), Uleb128Error>(
                (value as nat, (final(reader)@.position - old(reader)@.position) as nat),
            ) && final(reader)@.position > old(reader)@.position,
            Err(e) => spec_decode(old(reader)@.remaining()) == Err::<(nat, nat), Uleb128Error>(e)
                && final(reader)@.position == old(reader)@.position,
        },
{
    let rest = slice_subrange(reader.bytes, reader.position, reader.bytes.len());
    assert(rest@ =~= reader@.remaining());
    proof {
        lemma_decode_bounds(rest@);
    }
    match decode(rest) {
        Ok((value, used)) => {
            reader.position = reader.position + used;
            Ok(value)
        },
        Err(e) => Err(e),
    }
}

} // verus!

//! Framing of the amount-negotiation messages.
//!
//! A message travels as a single frame: the length of the payload as an
//! unsigned varint, then the payload itself. The payload is opaque here; the
//! reader accepts no frame whose payload is longer than `MAX_MESSAGE_SIZE`.

use vstd::prelude::*;

verus! {

/// Time to wait for a response once a request is sent, in seconds: one hour.
/// The caller enforces it.
pub const TIMEOUT: u64 = 3600;

/// The longest payload that the reader accepts, in bytes.
pub const MAX_MESSAGE_SIZE: usize = 1024;

/// The most bytes that a length prefix may take.
pub const MAX_PREFIX_SIZE: usize = 10;

/// Why a frame was not read.
#[derive(Clone, Copy, Debug, PartialEq, Eq, Structural)]
pub enum CodecError {
    /// The frame announces a payload longer than `MAX_MESSAGE_SIZE`.
    OversizedFrame,
    /// The input is no frame: the length prefix is cut short, overlong or
    /// not minimal, or the payload is not as long as announced.
    Malformed,
}

/// The unsigned varint of `n`: its base-128 digits, least significant first,
/// each but the last with the high bit set.
pub open spec fn varint(n: nat) -> Seq<u8>
    decreases n,
{
    if n < 128 {
        seq![n as u8]
    } else {
        seq![(n % 128 + 128) as u8] + varint(n / 128)
    }
}

/// The number that base-128 digits stand for, least significant first; the
/// high bit of each byte is left out.
pub open spec fn varint_value(digits: Seq<u8>) -> nat
    decreases digits.len(),
{
    if digits.len() == 0 {
        0
    } else {
        (digits[0] % 128) as nat + 128 * varint_value(digits.skip(1))
    }
}

/// The frame of a payload.
pub open spec fn frame(payload: Seq<u8>) -> Seq<u8> {
    varint(payload.len()) + payload
}

/// Position of the byte that ends the length prefix: the first one without
/// the high bit, looked for among the first `MAX_PREFIX_SIZE` bytes.
pub open spec fn prefix_end(input: Seq<u8>) -> Option<int> {
    prefix_end_from(input, 0)
}

/// The same, looking from position `start` on.
pub open spec fn prefix_end_from(input: Seq<u8>, start: int) -> Option<int>
    decreases MAX_PREFIX_SIZE - start,
{
    if start < 0 || start >= MAX_PREFIX_SIZE || start >= input.len() {
        None
    } else if input[start] < 128 {
        Some(start)
    } else {
        prefix_end_from(input, start + 1)
    }
}

/// What the length prefix of `input` announces: the payload length and the
/// number of bytes that the prefix takes.
pub open spec fn parse_length(input: Seq<u8>) -> Result<(nat, int), CodecError> {
    match prefix_end(input) {
        None => Err(CodecError::Malformed),
        Some(end) => if end > 0 && input[end] == 0 {
            Err(CodecError::Malformed)
        } else if varint_value(input.take(end + 1)) > MAX_MESSAGE_SIZE {
            Err(CodecError::OversizedFrame)
        } else {
            Ok((varint_value(input.take(end + 1)), end + 1))
        },
    }
}

/// What reading `input` as one frame gives.
pub open spec fn parse_frame(input: Seq<u8>) -> Result<Seq<u8>, CodecError> {
    match parse_length(input) {
        Err(e) => Err(e),
        Ok((length, used)) => if input.len() - used == length {
            Ok(input.skip(used))
        } else {
            Err(CodecError::Malformed)
        },
    }
}

/// `128` to the power `k`.
pub open spec fn pow128(k: nat) -> nat
    decreases k,
{
    if k == 0 {
        1
    } else {
        128 * pow128((k - 1) as nat)
    }
}

/// Whether `digits` is the well-formed, minimal varint of some number: every
/// byte but the last has the high bit, the last has not, and the last is not
/// zero unless it is the only one.
pub open spec fn is_varint(digits: Seq<u8>) -> bool {
    &&& digits.len() >= 1
    &&& forall|i: int| 0 <= i < digits.len() - 1 ==> #[trigger] digits[i] >= 128
    &&& digits.last() < 128
    &&& digits.len() > 1 ==> digits.last() != 0
}

/// The varint of a number is well formed and stands for that number.
pub proof fn lemma_varint_of(n: nat)
    ensures
        is_varint(varint(n)),
        varint_value(varint(n)) == n,
    decreases n,
{
    if n >= 128 {
        let rest = varint(n / 128);
        let all = varint(n);
        lemma_varint_of(n / 128);
        assert(all.skip(1) =~= rest);
        assert(all[0] == (n % 128 + 128) as u8);
        assert(all.last() == rest.last());
        assert forall|i: int| 0 <= i < all.len() - 1 implies #[trigger] all[i] >= 128 by {
            if i > 0 {
                assert(all[i] == rest[i - 1]);
            }
        }
        if rest.len() == 1 {
            assert(rest[0] == (n / 128) as u8);
        }
        assert(all[0] % 128 == n % 128);
        assert(varint_value(all) == (all[0] % 128) + 128 * varint_value(all.skip(1)));
    } else {
        let all = varint(n);
        assert(all.skip(1) =~= Seq::<u8>::empty());
        assert(varint_value(all.skip(1)) == 0);
        assert(all[0] == n);
        assert(varint_value(all) == (all[0] % 128) + 128 * varint_value(all.skip(1)));
    }
}

/// A number below `128^k` has a varint of at most `k` bytes.
pub proof fn lemma_varint_len(n: nat, k: nat)
    requires
        k >= 1,
        n < pow128(k),
    ensures
        varint(n).len() <= k,
    decreases k,
{
    if n >= 128 {
        if k == 1 {
            assert(pow128(1) == 128) by {
                reveal_with_fuel(pow128, 2);
            }
        } else {
            lemma_varint_len(n / 128, (k - 1) as nat);
        }
    }
}

/// A well-formed varint is the varint of the number that it stands for.
pub proof fn lemma_varint_unique(digits: Seq<u8>)
    requires
        is_varint(digits),
    ensures
        varint(varint_value(digits)) == digits,
        digits.len() > 1 ==> varint_value(digits) >= 128,
    decreases digits.len(),
{
    let rest = digits.skip(1);
    if digits.len() == 1 {
        assert(varint_value(rest) == 0);
        assert(varint(varint_value(digits)) =~= digits);
    } else {
        assert(rest.last() == digits.last());
        assert forall|i: int| 0 <= i < rest.len() - 1 implies #[trigger] rest[i] >= 128 by {
            assert(rest[i] == digits[i + 1]);
        }
        assert(digits[0] >= 128);
        if rest.len() == 1 {
            assert(rest[0] == digits.last());
            assert(varint_value(rest.skip(1)) == 0);
            assert(varint_value(rest) >= 1);
            assert(varint(varint_value(rest)) =~= rest);
        } else {
            lemma_varint_unique(rest);
        }
        let v = varint_value(digits);
        assert(v == (digits[0] % 128) + 128 * varint_value(rest));
        assert(v / 128 == varint_value(rest));
        assert(v % 128 + 128 == digits[0]);
        assert(varint(v) =~= digits);
    }
}

/// A well-formed varint of three bytes or more stands for a number beyond
/// every accepted length.
pub proof fn lemma_long_prefix_is_large(digits: Seq<u8>)
    requires
        is_varint(digits),
        digits.len() >= 3,
    ensures
        varint_value(digits) >= 16384,
{
    let rest = digits.skip(1);
    let rest2 = rest.skip(1);
    assert(rest.last() == digits.last());
    assert(rest2.last() == digits.last());
    assert forall|i: int| 0 <= i < rest2.len() - 1 implies #[trigger] rest2[i] >= 128 by {
        assert(rest2[i] == digits[i + 2]);
    }
    if rest2.len() == 1 {
        assert(varint_value(rest2.skip(1)) == 0);
    } else {
        lemma_varint_unique(rest2);
    }
    assert(varint_value(rest2) >= 1);
    assert(varint_value(rest) >= 128 * varint_value(rest2));
    assert(varint_value(digits) >= 128 * varint_value(rest));
}

/// The scan for the end of the prefix stops at the first byte without the
/// high bit.
pub proof fn lemma_prefix_end_at(input: Seq<u8>, start: int, end: int)
    requires
        0 <= start <= end < input.len(),
        end < MAX_PREFIX_SIZE,
        forall|i: int| start <= i < end ==> #[trigger] input[i] >= 128,
        input[end] < 128,
    ensures
        prefix_end_from(input, start) == Some(end),
    decreases end - start,
{
    if start < end {
        lemma_prefix_end_at(input, start + 1, end);
    }
}

/// Without such a byte among the bytes that count, the scan finds no end.
pub proof fn lemma_prefix_end_none(input: Seq<u8>, start: int)
    requires
        0 <= start,
        forall|i: int|
            start <= i < input.len() && i < MAX_PREFIX_SIZE ==> #[trigger] input[i] >= 128,
    ensures
        prefix_end_from(input, start) is None,
    decreases MAX_PREFIX_SIZE - start,
{
    if start < MAX_PREFIX_SIZE && start < input.len() {
        lemma_prefix_end_none(input, start + 1);
    }
}

/// Where the scan finds an end, the bytes up to it form a prefix in shape:
/// all of them carry the high bit, the end does not.
pub proof fn lemma_prefix_end_found(input: Seq<u8>, start: int)
    requires
        0 <= start,
        prefix_end_from(input, start) is Some,
    ensures
        ({
            let end = prefix_end_from(input, start)->Some_0;
            &&& start <= end < input.len()
            &&& end < MAX_PREFIX_SIZE
            &&& input[end] < 128
            &&& forall|i: int| start <= i < end ==> #[trigger] input[i] >= 128
        }),
    decreases MAX_PREFIX_SIZE - start,
{
    if input[start] >= 128 {
        lemma_prefix_end_found(input, start + 1);
    }
}

/// Codec boundary, within the limit: a payload of at most `MAX_MESSAGE_SIZE`
/// bytes is read back from its frame byte for byte.
pub proof fn lemma_frame_round_trip(payload: Seq<u8>)
    requires
        payload.len() <= MAX_MESSAGE_SIZE,
    ensures
        parse_frame(frame(payload)) == Ok::<Seq<u8>, CodecError>(payload),
{
    lemma_framed_length(payload);
    let prefix = varint(payload.len());
    assert(frame(payload).skip(prefix.len() as int) =~= payload);
}

/// Codec boundary, beyond the limit: the frame of a longer payload is
/// refused as oversized, whatever the payload holds.
pub proof fn lemma_oversized_frame_refused(payload: Seq<u8>)
    requires
        MAX_MESSAGE_SIZE < payload.len() <= usize::MAX,
    ensures
        parse_frame(frame(payload)) == Err::<Seq<u8>, CodecError>(CodecError::OversizedFrame),
{
    lemma_framed_length(payload);
}

/// The length prefix of a frame is found again in it as it was written.
proof fn lemma_framed_length(payload: Seq<u8>)
    requires
        payload.len() <= usize::MAX,
    ensures
        prefix_end(frame(payload)) == Some(varint(payload.len()).len() - 1),
        frame(payload).take(varint(payload.len()).len() as int) == varint(payload.len()),
        varint_value(varint(payload.len())) == payload.len(),
        is_varint(varint(payload.len())),
{
    let n = payload.len();
    let prefix = varint(n);
    let input = frame(payload);
    lemma_varint_of(n);
    assert(pow128(10) == 1180591620717411303424) by {
        reveal_with_fuel(pow128, 11);
    }
    lemma_varint_len(n, 10);
    let end = prefix.len() - 1;
    assert forall|i: int| 0 <= i < end implies #[trigger] input[i] >= 128 by {
        assert(input[i] == prefix[i]);
    }
    assert(input[end] == prefix[end]);
    lemma_prefix_end_at(input, 0, end);
    assert(input.take(end + 1) =~= prefix);
}

/// Reading is the inverse of framing within the limit: an input is read as
/// a payload exactly if it is the frame of that payload and the payload is
/// no longer than `MAX_MESSAGE_SIZE`.
pub proof fn lemma_reads_frames_only(input: Seq<u8>, payload: Seq<u8>)
    ensures
        parse_frame(input) == Ok::<Seq<u8>, CodecError>(payload) <==> input == frame(payload)
            && payload.len() <= MAX_MESSAGE_SIZE,
{
    if parse_frame(input) == Ok::<Seq<u8>, CodecError>(payload) {
        lemma_parse_inverts_frame(input);
    }
    if input == frame(payload) && payload.len() <= MAX_MESSAGE_SIZE {
        lemma_frame_round_trip(payload);
    }
}

/// Nothing but the frame of a payload is read as that payload.
pub proof fn lemma_parse_inverts_frame(input: Seq<u8>)
    requires
        parse_frame(input) is Ok,
    ensures
        input == frame(parse_frame(input)->Ok_0),
        parse_frame(input)->Ok_0.len() <= MAX_MESSAGE_SIZE,
{
    lemma_prefix_end_found(input, 0);
    let end = prefix_end(input)->Some_0;
    let prefix = input.take(end + 1);
    assert(is_varint(prefix)) by {
        assert forall|i: int| 0 <= i < prefix.len() - 1 implies #[trigger] prefix[i] >= 128 by {
            assert(prefix[i] == input[i]);
        }
        assert(prefix.last() == input[end]);
    }
    lemma_varint_unique(prefix);
    assert(input =~= prefix + input.skip(end + 1));
}

/// The name under which the protocol is negotiated.
pub open spec fn protocol_name_bytes() -> Seq<u8> {
    seq![47u8, 120u8, 109u8, 114u8, 47u8, 98u8, 116u8, 99u8, 47u8, 49u8, 46u8, 48u8, 46u8, 48u8]
}

/// The amount-negotiation protocol.
#[derive(Debug, Clone, Copy, Default)]
pub struct Protocol;

impl Protocol {
    /// The version-tagged name `/xmr/btc/1.0.0`.
    pub fn protocol_name(&self) -> (name: [u8; 14])
        ensures
            name@ == protocol_name_bytes(),
    {
        let name: [u8; 14] = [47, 120, 109, 114, 47, 98, 116, 99, 47, 49, 46, 48, 46, 48];
        assert(name@ =~= protocol_name_bytes());
        name
    }
}

/// What is known of a frame once some of its first bytes are read.
#[derive(Clone, Copy, Debug, PartialEq, Eq, Structural)]
pub enum LengthPrefix {
    /// The prefix is not complete: more bytes are needed.
    Incomplete,
    /// The prefix takes `used` bytes and announces a payload of `length` bytes.
    Complete { length: usize, used: usize },
}

/// Reads and writes the frames of the protocol.
#[derive(Clone, Copy, Debug, Default)]
pub struct Codec;

impl Codec {
    /// Frames a payload for sending. No limit applies on this side.
    pub fn write_frame(payload: &[u8]) -> (framed: Vec<u8>)
        ensures
            framed@ == frame(payload@),
    {
        let mut framed: Vec<u8> = Vec::new();
        let mut n: usize = payload.len();
        while n >= 128
            invariant
                framed@ + varint(n as nat) == varint(payload@.len()),
            decreases n,
        {
            let digit: u8 = (n % 128) as u8 + 128;
            framed.push(digit);
            assert(framed@ + varint((n / 128) as nat) =~= (framed@.drop_last() + varint(n as nat)));
            n = n / 128;
        }
        framed.push(n as u8);
        assert(framed@ =~= framed@.drop_last() + varint(n as nat));
        framed.extend_from_slice(payload);
        framed
    }

    /// Reads the length prefix from the first bytes of a frame, as far as
    /// they are there. `Incomplete` asks for more bytes; it is given only
    /// while a prefix within `MAX_PREFIX_SIZE` bytes can still come about.
    pub fn read_length(input: &[u8]) -> (prefix: Result<LengthPrefix, CodecError>)
        ensures
            match prefix {
                Ok(LengthPrefix::Incomplete) => prefix_end(input@) is None && input@.len()
                    < MAX_PREFIX_SIZE,
                Ok(LengthPrefix::Complete { length, used }) => parse_length(input@) == Ok::<
                    (nat, int),
                    CodecError,
                >((length as nat, used as int)),
                Err(e) => parse_length(input@) == Err::<(nat, int), CodecError>(e) && !(
                prefix_end(input@) is None && input@.len() < MAX_PREFIX_SIZE),
            },
    {
        let n = input.len();
        let mut end: usize = 0;
        while end < n && end < MAX_PREFIX_SIZE && input[end] >= 128
            invariant
                n == input@.len(),
                end <= n,
                end <= MAX_PREFIX_SIZE,
                forall|i: int| 0 <= i < end ==> #[trigger] input@[i] >= 128,
            decreases n - end,
        {
            end = end + 1;
        }
        if end >= n || end >= MAX_PREFIX_SIZE {
            proof {
                lemma_prefix_end_none(input@, 0);
            }
            return if n < MAX_PREFIX_SIZE {
                Ok(LengthPrefix::Incomplete)
            } else {
                Err(CodecError::Malformed)
            };
        }
        proof {
            lemma_prefix_end_at(input@, 0, end as int);
        }
        let last = input[end];
        if end > 0 && last == 0 {
            return Err(CodecError::Malformed);
        }
        let ghost digits = input@.take(end + 1);
        assert(is_varint(digits)) by {
            assert forall|i: int| 0 <= i < digits.len() - 1 implies #[trigger] digits[i] >= 128 by {
                assert(digits[i] == input@[i]);
            }
            assert(digits.last() == last);
        }
        if end >= 2 {
            proof {
                lemma_long_prefix_is_large(digits);
            }
            return Err(CodecError::OversizedFrame);
        }
        let length: usize = if end == 0 {
            assert(varint_value(digits.skip(1)) == 0);
            assert(digits[0] == last);
            last as usize
        } else {
            let low = input[0];
            assert(digits.skip(1).skip(1) =~= Seq::<u8>::empty());
            assert(varint_value(digits.skip(1).skip(1)) == 0);
            assert(digits.skip(1)[0] == last);
            assert(varint_value(digits.skip(1)) == last);
            assert(digits[0] == low);
            (low - 128) as usize + 128 * (last as usize)
        };
        assert(length == varint_value(digits));
        if length > MAX_MESSAGE_SIZE {
            return Err(CodecError::OversizedFrame);
        }
        Ok(LengthPrefix::Complete { length, used: end + 1 })
    }

    /// Reads one frame from the bytes that were received. A frame that
    /// announces too long a payload is refused whatever follows the prefix.
    pub fn read_frame(input: &[u8]) -> (payload: Result<Vec<u8>, CodecError>)
        ensures
            match payload {
                Ok(bytes) => parse_frame(input@) == Ok::<Seq<u8>, CodecError>(bytes@),
                Err(e) => parse_frame(input@) == Err::<Seq<u8>, CodecError>(e),
            },
    {
        match Codec::read_length(input) {
            Err(e) => Err(e),
            Ok(LengthPrefix::Incomplete) => Err(CodecError::Malformed),
            Ok(LengthPrefix::Complete { length, used }) => {
                proof {
                    lemma_prefix_end_found(input@, 0);
                }
                if input.len() - used != length {
                    return Err(CodecError::Malformed);
                }
                let mut bytes: Vec<u8> = Vec::new();
                let mut i: usize = used;
                let n = input.len();
                while i < n
                    invariant
                        n == input@.len(),
                        used <= i <= n,
                        bytes@ == input@.subrange(used as int, i as int),
                    decreases n - i,
                {
                    bytes.push(input[i]);
                    i = i + 1;
                    assert(bytes@ =~= input@.subrange(used as int, i as int));
                }
                assert(input@.subrange(used as int, n as int) =~= input@.skip(used as int));
                Ok(bytes)
            },
        }
    }
}

} // verus!

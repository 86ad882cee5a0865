//! The variable-length integers of QUIC, read a few bytes at a time.
//!
//! The two high bits of the first byte say how many bytes the integer takes (1, 2, 4 or 8);
//! the remaining bits of all its bytes, most significant first, are its value.
use vstd::prelude::*;

verus! {

/// The most bytes that one integer can take.
pub const MAX_VARINT_LEN: usize = 8;

/// The number of bytes of an integer whose first byte is `first`.
pub open spec fn varint_len(first: u8) -> nat {
    if first < 0x40 {
        1
    } else if first < 0x80 {
        2
    } else if first < 0xc0 {
        4
    } else {
        8
    }
}

/// The number that `bytes` stand for in base 256, most significant byte first.
pub open spec fn big_endian(bytes: Seq<u8>) -> nat
    decreases bytes.len(),
{
    if bytes.len() == 0 {
        0
    } else {
        big_endian(bytes.drop_last()) * 256 + bytes.last() as nat
    }
}

/// The value of the integer that `bytes` spell out: all their bits but the two highest.
pub open spec fn varint_value(bytes: Seq<u8>) -> nat
    recommends
        bytes.len() > 0,
{
    big_endian(bytes.update(0, bytes[0] % 64))
}

/// Whether `bytes` are the first bytes, perhaps all, of one integer.
pub open spec fn is_varint_prefix(bytes: Seq<u8>) -> bool {
    bytes.len() == 0 || bytes.len() <= varint_len(bytes[0])
}

/// Whether `bytes` are one whole integer.
pub open spec fn is_varint(bytes: Seq<u8>) -> bool {
    bytes.len() > 0 && bytes.len() == varint_len(bytes[0])
}

/// How many more bytes are certain to belong to the integer that starts with `bytes`.
pub open spec fn varint_missing(bytes: Seq<u8>) -> nat
    recommends
        is_varint_prefix(bytes),
{
    if bytes.len() == 0 {
        1
    } else {
        (varint_len(bytes[0]) - bytes.len()) as nat
    }
}

/// How many bytes of `data` belong to the integer that starts with `read`, as far as `read`
/// tells.
pub open spec fn taken(read: Seq<u8>, data: Seq<u8>) -> int {
    if data.len() < varint_missing(read) {
        data.len() as int
    } else {
        varint_missing(read) as int
    }
}

/// One more than the greatest value that `len` bytes can hold beside the length bits.
pub open spec fn varint_limit(len: nat) -> nat
    decreases len,
{
    if len <= 1 {
        64
    } else {
        256 * varint_limit((len - 1) as nat)
    }
}

/// Every value fits in 62 bits.
pub proof fn lemma_varint_limit(len: nat)
    requires
        len <= MAX_VARINT_LEN,
    ensures
        varint_limit(len) <= 0x4000_0000_0000_0000,
{
    reveal_with_fuel(varint_limit, 8);
}

/// The value of a beginning of an integer lies below the limit for its length.
pub proof fn lemma_varint_value_bound(bytes: Seq<u8>)
    requires
        bytes.len() > 0,
        is_varint_prefix(bytes),
    ensures
        varint_value(bytes) < varint_limit(bytes.len()),
        varint_value(bytes) < 0x4000_0000_0000_0000,
{
    let masked = bytes.update(0, bytes[0] % 64);
    lemma_big_endian_bound(masked);
    lemma_varint_limit(bytes.len());
}

proof fn lemma_big_endian_bound(bytes: Seq<u8>)
    requires
        bytes.len() > 0,
        bytes[0] < 64,
    ensures
        big_endian(bytes) < varint_limit(bytes.len()),
    decreases bytes.len(),
{
    if bytes.len() == 1 {
        assert(big_endian(bytes.drop_last()) == 0);
    } else {
        lemma_big_endian_bound(bytes.drop_last());
    }
}

fn encoded_len(first: u8) -> (len: usize)
    ensures
        len == varint_len(first),
        1 <= len <= MAX_VARINT_LEN,
{
    if first < 0x40 {
        1
    } else if first < 0x80 {
        2
    } else if first < 0xc0 {
        4
    } else {
        8
    }
}

/// Reads one integer whose bytes arrive piecemeal.
#[derive(Debug, PartialEq, Eq)]
pub struct IncrementalDecoderUint {
    bytes: [u8; 8],
    len: usize,
}

impl View for IncrementalDecoderUint {
    type V = Seq<u8>;

    /// The bytes of the integer that have been taken so far.
    closed spec fn view(&self) -> Seq<u8> {
        self.bytes@.take(self.len as int)
    }
}

impl Default for IncrementalDecoderUint {
    fn default() -> (decoder: Self)
        ensures
            decoder@ == Seq::<u8>::empty(),
    {
        let bytes: [u8; 8] = [0; 8];
        assert(bytes@.take(0) =~= Seq::<u8>::empty());
        IncrementalDecoderUint { bytes, len: 0 }
    }
}

impl IncrementalDecoderUint {
    /// The bytes taken so far are the beginning of one integer.
    #[verifier::type_invariant]
    spec fn wf(&self) -> bool {
        self.len <= MAX_VARINT_LEN && is_varint_prefix(self@)
    }

    /// The number of bytes that can be taken without going past the end of the integer:
    /// one while not even its first byte is known, and none when it is complete.
    pub fn min_remaining(&self) -> (remaining: usize)
        ensures
            remaining == varint_missing(self@),
            remaining <= MAX_VARINT_LEN,
            is_varint_prefix(self@),
    {
        proof {
            use_type_invariant(self);
        }
        if self.len == 0 {
            1
        } else {
            encoded_len(self.bytes[0]) - self.len
        }
    }

    /// Takes bytes from the front of `data`, no more than belong to the integer, and gives
    /// the integer once its last byte has been taken.
    pub fn consume(&mut self, data: &[u8]) -> (value: Option<u64>)
        requires
            old(self)@.len() == 0 ==> data@.len() > 0,
        ensures
            final(self)@ == old(self)@ + data@.take(taken(old(self)@, data@)),
            is_varint_prefix(final(self)@),
            value == (if is_varint(final(self)@) {
                Some(varint_value(final(self)@) as u64)
            } else {
                None
            }),
    {
        let missing = self.min_remaining();
        let amount = if data.len() < missing {
            data.len()
        } else {
            missing
        };
        let start = self.len;
        let mut bytes = self.bytes;
        let mut i: usize = 0;
        proof {
            use_type_invariant(&*self);
            assert(data@.take(0) =~= Seq::<u8>::empty());
        }
        while i < amount
            invariant
                i <= amount <= data@.len(),
                start + amount <= MAX_VARINT_LEN,
                bytes@.take(start + i) == old(self)@ + data@.take(i as int),
            decreases amount - i,
        {
            let ghost before = bytes@.take(start + i);
            bytes[start + i] = data[i];
            i = i + 1;
            assert(bytes@.take(start + i) =~= before.push(data@[i - 1]));
            assert(data@.take(i as int) =~= data@.take(i - 1).push(data@[i - 1]));
        }
        proof {
            if start > 0 {
                assert(bytes@.take(start + i)[0] == old(self)@[0]);
            }
        }
        *self = IncrementalDecoderUint { bytes, len: start + amount };
        if self.min_remaining() == 0 {
            Some(self.value())
        } else {
            None
        }
    }

    /// The value of the bytes taken so far.
    fn value(&self) -> (value: u64)
        requires
            self@.len() > 0,
        ensures
            value == varint_value(self@),
    {
        let ghost masked = self@.update(0, self@[0] % 64);
        let mut value: u64 = (self.bytes[0] % 64) as u64;
        let mut i: usize = 1;
        proof {
            use_type_invariant(self);
            assert(masked.take(1) =~= seq![masked[0]]);
            reveal_with_fuel(big_endian, 2);
        }
        while i < self.len
            invariant
                masked == self@.update(0, self@[0] % 64),
                1 <= i <= self.len == masked.len() <= MAX_VARINT_LEN,
                value == big_endian(masked.take(i as int)),
            decreases self.len - i,
        {
            proof {
                lemma_big_endian_bound(masked.take(i as int));
                lemma_big_endian_bound(masked.take(i + 1));
                lemma_varint_limit((i + 1) as nat);
                assert(masked.take(i + 1).drop_last() =~= masked.take(i as int));
            }
            value = value * 256 + self.bytes[i] as u64;
            i = i + 1;
        }
        assert(masked.take(i as int) =~= masked);
        value
    }
}

/// The `len` lowest digits of `value` in base 256, most significant first.
pub open spec fn base256(value: nat, len: nat) -> Seq<u8>
    decreases len,
{
    if len == 0 {
        Seq::empty()
    } else {
        base256(value / 256, (len - 1) as nat).push((value % 256) as u8)
    }
}

/// The fewest bytes that can hold `value` beside the length bits.
pub open spec fn shortest_len(value: nat) -> nat {
    if value < 0x40 {
        1
    } else if value < 0x4000 {
        2
    } else if value < 0x4000_0000 {
        4
    } else {
        8
    }
}

/// The length bits of an integer of `len` bytes, in the place where they stand in its first
/// byte.
pub open spec fn length_bits(len: nat) -> nat {
    if len == 1 {
        0
    } else if len == 2 {
        0x40
    } else if len == 4 {
        0x80
    } else {
        0xc0
    }
}

/// The integer `value` in as few bytes as possible.
pub open spec fn varint_encoding(value: nat) -> Seq<u8>
    recommends
        value < 0x4000_0000_0000_0000,
{
    let len = shortest_len(value);
    let digits = base256(value, len);
    digits.update(0, (digits[0] + length_bits(len)) as u8)
}

proof fn lemma_base256(value: nat, len: nat)
    requires
        len > 0,
        value < varint_limit(len),
    ensures
        base256(value, len).len() == len,
        base256(value, len)[0] < 64,
        big_endian(base256(value, len)) == value,
    decreases len,
{
    let digits = base256(value, len);
    let higher = base256(value / 256, (len - 1) as nat);
    assert(digits.drop_last() =~= higher);
    if len == 1 {
        assert(value / 256 == 0);
        assert(big_endian(higher) == 0);
    } else {
        assert(value / 256 < varint_limit((len - 1) as nat));
        lemma_base256(value / 256, (len - 1) as nat);
    }
}

/// What is encoded is read back: the encoding of a value is one whole integer with that value.
pub proof fn law_encoding_is_read_back(value: nat)
    requires
        value < 0x4000_0000_0000_0000,
    ensures
        is_varint(varint_encoding(value)),
        varint_value(varint_encoding(value)) == value,
{
    let len = shortest_len(value);
    let digits = base256(value, len);
    let bytes = varint_encoding(value);
    reveal_with_fuel(varint_limit, 8);
    lemma_base256(value, len);
    assert(bytes.update(0, bytes[0] % 64) =~= digits);
}

} // verus!

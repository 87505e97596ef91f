//! Plain-old-data values and their bytes.

use vstd::prelude::*;

use crate::coll::{UccDatatype, UccReductionOp};
use crate::error::{Error, Result};

verus! {

/// The order in which the bytes of a number stand in memory.
#[derive(Debug, Clone, Copy, PartialEq, Eq, Structural)]
pub enum ByteOrder {
    /// The least significant byte comes first.
    Little,
    /// The most significant byte comes first.
    Big,
}

/// The number of values that `len` bytes can hold.
pub open spec fn values_in(len: nat) -> nat
    decreases len,
{
    if len == 0 {
        1
    } else {
        256 * values_in((len - 1) as nat)
    }
}

/// The `len` low bytes of a number, least significant first.
pub open spec fn low_bytes(n: nat, len: nat) -> Seq<u8>
    decreases len,
{
    if len == 0 {
        seq![]
    } else {
        seq![(n % 256) as u8] + low_bytes(n / 256, (len - 1) as nat)
    }
}

/// The number that bytes stand for, least significant first.
pub open spec fn number_of(bytes: Seq<u8>) -> nat
    decreases bytes.len(),
{
    if bytes.len() == 0 {
        0
    } else {
        bytes[0] as nat + 256 * number_of(bytes.skip(1))
    }
}

proof fn lemma_low_bytes_len(n: nat, len: nat)
    ensures
        low_bytes(n, len).len() == len,
    decreases len,
{
    if len > 0 {
        lemma_low_bytes_len(n / 256, (len - 1) as nat);
    }
}

proof fn lemma_number_of_low_bytes(n: nat, len: nat)
    requires
        n < values_in(len),
    ensures
        number_of(low_bytes(n, len)) == n,
    decreases len,
{
    if len > 0 {
        let rest = low_bytes(n / 256, (len - 1) as nat);
        lemma_low_bytes_len(n / 256, (len - 1) as nat);
        assert(low_bytes(n, len).skip(1) =~= rest);
        lemma_number_of_low_bytes(n / 256, (len - 1) as nat);
    }
}

proof fn lemma_low_bytes_of_number(bytes: Seq<u8>)
    ensures
        low_bytes(number_of(bytes), bytes.len()) == bytes,
        number_of(bytes) < values_in(bytes.len()),
    decreases bytes.len(),
{
    if bytes.len() > 0 {
        let rest = bytes.skip(1);
        lemma_low_bytes_of_number(rest);
        assert(low_bytes(number_of(bytes), bytes.len()) =~= seq![bytes[0]] + rest);
        assert(bytes =~= seq![bytes[0]] + rest);
    }
}

impl ByteOrder {
    /// The `len` low bytes of a number, in this order.
    pub open spec fn bytes(self, n: nat, len: nat) -> Seq<u8> {
        match self {
            ByteOrder::Little => low_bytes(n, len),
            ByteOrder::Big => low_bytes(n, len).reverse(),
        }
    }

    /// The number that bytes in this order stand for.
    pub open spec fn number(self, bytes: Seq<u8>) -> nat {
        match self {
            ByteOrder::Little => number_of(bytes),
            ByteOrder::Big => number_of(bytes.reverse()),
        }
    }

    /// The bytes of a number that fits in them give the number back, in either order.
    pub proof fn law_number_of_bytes(self, n: nat, len: nat)
        requires
            n < values_in(len),
        ensures
            self.bytes(n, len).len() == len,
            self.number(self.bytes(n, len)) == n,
    {
        lemma_low_bytes_len(n, len);
        lemma_number_of_low_bytes(n, len);
        assert(low_bytes(n, len).reverse().reverse() =~= low_bytes(n, len));
    }

    /// Any bytes are the bytes of the number they stand for, in either order.
    pub proof fn law_bytes_of_number(self, bytes: Seq<u8>)
        ensures
            self.number(bytes) < values_in(bytes.len()),
            self.bytes(self.number(bytes), bytes.len()) == bytes,
    {
        lemma_low_bytes_of_number(bytes);
        lemma_low_bytes_of_number(bytes.reverse());
        assert(bytes.reverse().reverse() =~= bytes);
    }
}

/// As many values fit in some bytes as there are powers of 256.
pub proof fn law_each_byte_holds_256_values(len: nat)
    ensures
        values_in(len) == vstd::arithmetic::power::pow(256, len),
    decreases len,
{
    reveal(vstd::arithmetic::power::pow);
    if len > 0 {
        law_each_byte_holds_256_values((len - 1) as nat);
    }
}

proof fn lemma_low_byte_at(n: nat, len: nat, i: int)
    requires
        0 <= i < len,
    ensures
        low_bytes(n, len).len() == len,
        low_bytes(n, len)[i] == (n as int / vstd::arithmetic::power::pow(256, i as nat)) % 256,
    decreases len,
{
    lemma_low_bytes_len(n, len);
    lemma_low_bytes_len(n / 256, (len - 1) as nat);
    reveal(vstd::arithmetic::power::pow);
    if i > 0 {
        lemma_low_byte_at(n / 256, (len - 1) as nat, i - 1);
        vstd::arithmetic::power::lemma_pow_positive(256, (i - 1) as nat);
        vstd::arithmetic::div_mod::lemma_div_denominator(
            n as int,
            256,
            vstd::arithmetic::power::pow(256, (i - 1) as nat),
        );
    }
}

impl ByteOrder {
    /// Each byte of a number stands at the place of its weight: the least significant one first in
    /// the one order, and last in the other.
    pub proof fn law_each_byte_has_its_weight(n: nat, len: nat, i: int)
        requires
            0 <= i < len,
        ensures
            ByteOrder::Little.bytes(n, len).len() == len,
            ByteOrder::Big.bytes(n, len).len() == len,
            ByteOrder::Little.bytes(n, len)[i] == (n as int / vstd::arithmetic::power::pow(
                256,
                i as nat,
            )) % 256,
            ByteOrder::Big.bytes(n, len)[len - 1 - i] == ByteOrder::Little.bytes(n, len)[i],
    {
        lemma_low_byte_at(n, len, i);
    }
}

/// The bytes of an unsigned 16-bit number as they stand in this machine's memory.
///
/// Calls `u16::to_ne_bytes`. Its documentation promises the native byte order of the target:
/// the bytes are those of the number with the least or with the most significant byte first.
/// Which of the two it is depends on the machine and is left open.
#[verifier::external_body]
fn native_bytes(n: u16) -> (bytes: [u8; 2])
    ensures
        bytes@ == ByteOrder::Little.bytes(n as nat, 2) || bytes@ == ByteOrder::Big.bytes(
            n as nat,
            2,
        ),
{
    n.to_ne_bytes()
}

impl ByteOrder {
    /// Tell the byte order from the two bytes of the number one.
    pub fn of_one(bytes: [u8; 2]) -> (order: ByteOrder)
        requires
            bytes@ == ByteOrder::Little.bytes(1, 2) || bytes@ == ByteOrder::Big.bytes(1, 2),
        ensures
            bytes@ == order.bytes(1, 2),
            order == ByteOrder::Little <==> bytes@ == ByteOrder::Little.bytes(1, 2),
    {
        proof {
            reveal_with_fuel(low_bytes, 3);
            assert(ByteOrder::Little.bytes(1, 2) =~= seq![1u8, 0u8]);
            assert(ByteOrder::Big.bytes(1, 2) =~= seq![0u8, 1u8]);
            assert(seq![1u8, 0u8][0] == 1u8 && seq![0u8, 1u8][0] == 0u8);
        }
        if bytes[0] == 1 {
            ByteOrder::Little
        } else {
            ByteOrder::Big
        }
    }

    /// Return the byte order of this machine. Nothing is promised about which it is.
    pub(crate) fn native() -> ByteOrder {
        ByteOrder::of_one(native_bytes(1))
    }

    /// Append the `len` low bytes of a number in this order.
    fn push(self, n: u64, len: usize, bytes: &mut Vec<u8>)
        ensures
            final(bytes)@ == old(bytes)@ + self.bytes(n as nat, len as nat),
        decreases len,
    {
        if len > 0 {
            let ghost start = bytes@;
            let ghost rest = low_bytes((n / 256) as nat, (len - 1) as nat);
            match self {
                ByteOrder::Little => {
                    bytes.push((n % 256) as u8);
                    self.push(n / 256, len - 1, bytes);
                    assert(bytes@ =~= start + low_bytes(n as nat, len as nat));
                },
                ByteOrder::Big => {
                    self.push(n / 256, len - 1, bytes);
                    bytes.push((n % 256) as u8);
                    assert((seq![(n % 256) as u8] + rest).reverse() =~= rest.reverse().push(
                        (n % 256) as u8,
                    ));
                    assert(bytes@ =~= start + low_bytes(n as nat, len as nat).reverse());
                },
            }
        } else {
            assert(bytes@ =~= old(bytes)@ + self.bytes(n as nat, len as nat));
        }
    }

    /// Read the number that at most eight bytes in this order stand for.
    fn read(self, bytes: &[u8]) -> (n: u64)
        requires
            bytes@.len() <= 8,
        ensures
            n as nat == self.number(bytes@),
    {
        let len = bytes.len();
        let mut n: u64 = 0;
        match self {
            ByteOrder::Little => {
                let mut at: usize = len;
                assert(bytes@.skip(len as int) =~= seq![]);
                while at > 0
                    invariant
                        at <= len == bytes@.len() <= 8,
                        n as nat == number_of(bytes@.skip(at as int)),
                    decreases at,
                {
                    at = at - 1;
                    let ghost tail = bytes@.skip(at as int);
                    proof {
                        assert(tail.skip(1) =~= bytes@.skip(at + 1));
                        lemma_low_bytes_of_number(tail.skip(1));
                        lemma_room(tail.skip(1).len());
                    }
                    n = n * 256 + bytes[at] as u64;
                }
                assert(bytes@.skip(0) =~= bytes@);
            },
            ByteOrder::Big => {
                let mut at: usize = 0;
                assert(bytes@.take(0).reverse() =~= seq![]);
                while at < len
                    invariant
                        at <= len == bytes@.len() <= 8,
                        n as nat == number_of(bytes@.take(at as int).reverse()),
                    decreases len - at,
                {
                    let ghost head = bytes@.take(at + 1).reverse();
                    proof {
                        assert(head.skip(1) =~= bytes@.take(at as int).reverse());
                        assert(head[0] == bytes@[at as int]);
                        lemma_low_bytes_of_number(head.skip(1));
                        lemma_room(head.skip(1).len());
                    }
                    n = n * 256 + bytes[at] as u64;
                    at = at + 1;
                }
                assert(bytes@.take(len as int) =~= bytes@);
            },
        }
        n
    }
}

/// Seven bytes leave room for one more in 64 bits.
proof fn lemma_room(len: nat)
    requires
        len <= 7,
    ensures
        values_in(len) <= 0x100_0000_0000_0000,
{
    reveal_with_fuel(values_in, 8);
}

/// Plain-old-data supported by the typed RMA and collective interfaces.
///
/// A value is an unsigned number of `SIZE` bytes, its bits, and is stored as the bytes of that
/// number.
pub trait Pod: Copy + Sized {
    /// The number of bytes of a value.
    const SIZE: usize;

    /// The number of bytes of a value.
    spec fn size() -> nat;

    /// The value as an unsigned number.
    spec fn bits(self) -> nat;

    /// The value with the given bits.
    spec fn of_bits(bits: nat) -> Self;

    /// The type under which UCC knows such values.
    spec fn datatype() -> UccDatatype;

    /// The bits fit in `SIZE` bytes and determine the value.
    proof fn lemma_bits(self)
        ensures
            self.bits() < values_in(Self::size()),
            Self::of_bits(self.bits()) == self,
    ;

    /// Any number that fits in `SIZE` bytes is the bits of some value.
    proof fn lemma_of_bits(bits: nat)
        requires
            bits < values_in(Self::size()),
        ensures
            Self::of_bits(bits).bits() == bits,
    ;

    proof fn lemma_size()
        ensures
            Self::SIZE == Self::size(),
            1 <= Self::size() <= 8,
    ;

    /// Return the value as an unsigned number.
    fn to_bits(self) -> (bits: u64)
        ensures
            bits as nat == self.bits(),
    ;

    /// Return the value with the given bits.
    fn from_bits(bits: u64) -> (value: Self)
        requires
            bits < values_in(Self::size()),
        ensures
            value == Self::of_bits(bits as nat),
    ;

    /// Return the type under which UCC knows such values.
    fn ucc_datatype() -> (datatype: UccDatatype)
        ensures
            datatype == Self::datatype(),
    ;

    /// Whether values of this type can be combined by the given reduction.
    fn reduction_supported(op: UccReductionOp) -> (supported: bool)
        ensures
            supported == Self::datatype().reduces_by(op),
    {
        Self::ucc_datatype().supports(op)
    }

    /// Append the bytes of the value in a given order.
    fn encode_in(self, order: ByteOrder, dst: &mut Vec<u8>)
        ensures
            final(dst)@ == old(dst)@ + order.bytes(self.bits(), Self::size()),
    {
        proof {
            Self::lemma_size();
        }
        order.push(self.to_bits(), Self::SIZE, dst)
    }

    /// Read a value from its bytes in a given order.
    fn decode_in(order: ByteOrder, src: &[u8]) -> (value: Result<Self>)
        ensures
            src@.len() == Self::size() ==> value == Ok::<Self, Error>(
                Self::of_bits(order.number(src@)),
            ),
            src@.len() != Self::size() ==> value == Err::<Self, Error>(
                Error::Internal("invalid typed RMA byte count"),
            ),
    {
        proof {
            Self::lemma_size();
            order.law_bytes_of_number(src@);
        }
        if src.len() != Self::SIZE {
            return Err(Error::Internal("invalid typed RMA byte count"));
        }
        Ok(Self::from_bits(order.read(src)))
    }

    /// Append the bytes of the value in this machine's order.
    fn encode(self, dst: &mut Vec<u8>)
        ensures
            exists|order: ByteOrder|
                final(dst)@ == old(dst)@ + #[trigger] order.bytes(self.bits(), Self::size()),
    {
        self.encode_in(ByteOrder::native(), dst)
    }

    /// Read a value from its bytes in this machine's order.
    fn decode(src: &[u8]) -> (value: Result<Self>)
        ensures
            src@.len() == Self::size() ==> exists|order: ByteOrder|
                value == Ok::<Self, Error>(Self::of_bits(#[trigger] order.number(src@))),
            src@.len() != Self::size() ==> value == Err::<Self, Error>(
                Error::Internal("invalid typed RMA byte count"),
            ),
    {
        Self::decode_in(ByteOrder::native(), src)
    }
}

impl Pod for u8 {
    const SIZE: usize = 1;

    open spec fn size() -> nat {
        1
    }

    open spec fn bits(self) -> nat {
        self as nat
    }

    open spec fn of_bits(bits: nat) -> u8 {
        bits as u8
    }

    open spec fn datatype() -> UccDatatype {
        UccDatatype::Uint8
    }

    proof fn lemma_bits(self) {
        reveal_with_fuel(values_in, 2);
    }

    proof fn lemma_of_bits(bits: nat) {
        reveal_with_fuel(values_in, 2);
    }

    proof fn lemma_size() {
        assert(Self::SIZE == 1);
    }

    fn to_bits(self) -> (bits: u64) {
        self as u64
    }

    fn from_bits(bits: u64) -> (value: u8) {
        bits as u8
    }

    fn ucc_datatype() -> (datatype: UccDatatype) {
        UccDatatype::Uint8
    }
}

impl Pod for i8 {
    const SIZE: usize = 1;

    open spec fn size() -> nat {
        1
    }

    open spec fn bits(self) -> nat {
        if self < 0 {
            (self + 0x100) as nat
        } else {
            self as nat
        }
    }

    open spec fn of_bits(bits: nat) -> i8 {
        if bits < 0x80 {
            bits as i8
        } else {
            (bits - 0x100) as i8
        }
    }

    open spec fn datatype() -> UccDatatype {
        UccDatatype::Int8
    }

    proof fn lemma_bits(self) {
        reveal_with_fuel(values_in, 2);
    }

    proof fn lemma_of_bits(bits: nat) {
        reveal_with_fuel(values_in, 2);
    }

    proof fn lemma_size() {
        assert(Self::SIZE == 1);
    }

    fn to_bits(self) -> (bits: u64) {
        if self < 0 {
            (self as i128 + 0x100) as u64
        } else {
            self as u64
        }
    }

    fn from_bits(bits: u64) -> (value: i8) {
        proof {
            reveal_with_fuel(values_in, 2);
        }
        if bits < 0x80 {
            bits as i8
        } else {
            (bits as i128 - 0x100) as i8
        }
    }

    fn ucc_datatype() -> (datatype: UccDatatype) {
        UccDatatype::Int8
    }
}

impl Pod for u16 {
    const SIZE: usize = 2;

    open spec fn size() -> nat {
        2
    }

    open spec fn bits(self) -> nat {
        self as nat
    }

    open spec fn of_bits(bits: nat) -> u16 {
        bits as u16
    }

    open spec fn datatype() -> UccDatatype {
        UccDatatype::Uint16
    }

    proof fn lemma_bits(self) {
        reveal_with_fuel(values_in, 3);
    }

    proof fn lemma_of_bits(bits: nat) {
        reveal_with_fuel(values_in, 3);
    }

    proof fn lemma_size() {
        assert(Self::SIZE == 2);
    }

    fn to_bits(self) -> (bits: u64) {
        self as u64
    }

    fn from_bits(bits: u64) -> (value: u16) {
        bits as u16
    }

    fn ucc_datatype() -> (datatype: UccDatatype) {
        UccDatatype::Uint16
    }
}

impl Pod for i16 {
    const SIZE: usize = 2;

    open spec fn size() -> nat {
        2
    }

    open spec fn bits(self) -> nat {
        if self < 0 {
            (self + 0x1_0000) as nat
        } else {
            self as nat
        }
    }

    open spec fn of_bits(bits: nat) -> i16 {
        if bits < 0x8000 {
            bits as i16
        } else {
            (bits - 0x1_0000) as i16
        }
    }

    open spec fn datatype() -> UccDatatype {
        UccDatatype::Int16
    }

    proof fn lemma_bits(self) {
        reveal_with_fuel(values_in, 3);
    }

    proof fn lemma_of_bits(bits: nat) {
        reveal_with_fuel(values_in, 3);
    }

    proof fn lemma_size() {
        assert(Self::SIZE == 2);
    }

    fn to_bits(self) -> (bits: u64) {
        if self < 0 {
            (self as i128 + 0x1_0000) as u64
        } else {
            self as u64
        }
    }

    fn from_bits(bits: u64) -> (value: i16) {
        proof {
            reveal_with_fuel(values_in, 3);
        }
        if bits < 0x8000 {
            bits as i16
        } else {
            (bits as i128 - 0x1_0000) as i16
        }
    }

    fn ucc_datatype() -> (datatype: UccDatatype) {
        UccDatatype::Int16
    }
}

impl Pod for u32 {
    const SIZE: usize = 4;

    open spec fn size() -> nat {
        4
    }

    open spec fn bits(self) -> nat {
        self as nat
    }

    open spec fn of_bits(bits: nat) -> u32 {
        bits as u32
    }

    open spec fn datatype() -> UccDatatype {
        UccDatatype::Uint32
    }

    proof fn lemma_bits(self) {
        reveal_with_fuel(values_in, 5);
    }

    proof fn lemma_of_bits(bits: nat) {
        reveal_with_fuel(values_in, 5);
    }

    proof fn lemma_size() {
        assert(Self::SIZE == 4);
    }

    fn to_bits(self) -> (bits: u64) {
        self as u64
    }

    fn from_bits(bits: u64) -> (value: u32) {
        bits as u32
    }

    fn ucc_datatype() -> (datatype: UccDatatype) {
        UccDatatype::Uint32
    }
}

impl Pod for i32 {
    const SIZE: usize = 4;

    open spec fn size() -> nat {
        4
    }

    open spec fn bits(self) -> nat {
        if self < 0 {
            (self + 0x1_0000_0000) as nat
        } else {
            self as nat
        }
    }

    open spec fn of_bits(bits: nat) -> i32 {
        if bits < 0x8000_0000 {
            bits as i32
        } else {
            (bits - 0x1_0000_0000) as i32
        }
    }

    open spec fn datatype() -> UccDatatype {
        UccDatatype::Int32
    }

    proof fn lemma_bits(self) {
        reveal_with_fuel(values_in, 5);
    }

    proof fn lemma_of_bits(bits: nat) {
        reveal_with_fuel(values_in, 5);
    }

    proof fn lemma_size() {
        assert(Self::SIZE == 4);
    }

    fn to_bits(self) -> (bits: u64) {
        if self < 0 {
            (self as i128 + 0x1_0000_0000) as u64
        } else {
            self as u64
        }
    }

    fn from_bits(bits: u64) -> (value: i32) {
        proof {
            reveal_with_fuel(values_in, 5);
        }
        if bits < 0x8000_0000 {
            bits as i32
        } else {
            (bits as i128 - 0x1_0000_0000) as i32
        }
    }

    fn ucc_datatype() -> (datatype: UccDatatype) {
        UccDatatype::Int32
    }
}

impl Pod for u64 {
    const SIZE: usize = 8;

    open spec fn size() -> nat {
        8
    }

    open spec fn bits(self) -> nat {
        self as nat
    }

    open spec fn of_bits(bits: nat) -> u64 {
        bits as u64
    }

    open spec fn datatype() -> UccDatatype {
        UccDatatype::Uint64
    }

    proof fn lemma_bits(self) {
        reveal_with_fuel(values_in, 9);
    }

    proof fn lemma_of_bits(bits: nat) {
        reveal_with_fuel(values_in, 9);
    }

    proof fn lemma_size() {
        assert(Self::SIZE == 8);
    }

    fn to_bits(self) -> (bits: u64) {
        self as u64
    }

    fn from_bits(bits: u64) -> (value: u64) {
        bits as u64
    }

    fn ucc_datatype() -> (datatype: UccDatatype) {
        UccDatatype::Uint64
    }
}

impl Pod for i64 {
    const SIZE: usize = 8;

    open spec fn size() -> nat {
        8
    }

    open spec fn bits(self) -> nat {
        if self < 0 {
            (self + 0x1_0000_0000_0000_0000) as nat
        } else {
            self as nat
        }
    }

    open spec fn of_bits(bits: nat) -> i64 {
        if bits < 0x8000_0000_0000_0000 {
            bits as i64
        } else {
            (bits - 0x1_0000_0000_0000_0000) as i64
        }
    }

    open spec fn datatype() -> UccDatatype {
        UccDatatype::Int64
    }

    proof fn lemma_bits(self) {
        reveal_with_fuel(values_in, 9);
    }

    proof fn lemma_of_bits(bits: nat) {
        reveal_with_fuel(values_in, 9);
    }

    proof fn lemma_size() {
        assert(Self::SIZE == 8);
    }

    fn to_bits(self) -> (bits: u64) {
        if self < 0 {
            (self as i128 + 0x1_0000_0000_0000_0000) as u64
        } else {
            self as u64
        }
    }

    fn from_bits(bits: u64) -> (value: i64) {
        proof {
            reveal_with_fuel(values_in, 9);
        }
        if bits < 0x8000_0000_0000_0000 {
            bits as i64
        } else {
            (bits as i128 - 0x1_0000_0000_0000_0000) as i64
        }
    }

    fn ucc_datatype() -> (datatype: UccDatatype) {
        UccDatatype::Int64
    }
}

/// A single-precision floating-point number, by its bit pattern.
#[derive(Debug, Clone, Copy, PartialEq, Eq, Structural)]
pub struct SingleBits(pub u32);

impl Pod for SingleBits {
    const SIZE: usize = 4;

    open spec fn size() -> nat {
        4
    }

    open spec fn bits(self) -> nat {
        self.0 as nat
    }

    open spec fn of_bits(bits: nat) -> SingleBits {
        SingleBits(bits as u32)
    }

    open spec fn datatype() -> UccDatatype {
        UccDatatype::Float32
    }

    proof fn lemma_bits(self) {
        reveal_with_fuel(values_in, 5);
    }

    proof fn lemma_of_bits(bits: nat) {
        reveal_with_fuel(values_in, 5);
    }

    proof fn lemma_size() {
        assert(Self::SIZE == 4);
    }

    fn to_bits(self) -> (bits: u64) {
        self.0 as u64
    }

    fn from_bits(bits: u64) -> (value: SingleBits) {
        SingleBits(bits as u32)
    }

    fn ucc_datatype() -> (datatype: UccDatatype) {
        UccDatatype::Float32
    }
}

/// A double-precision floating-point number, by its bit pattern.
#[derive(Debug, Clone, Copy, PartialEq, Eq, Structural)]
pub struct DoubleBits(pub u64);

impl Pod for DoubleBits {
    const SIZE: usize = 8;

    open spec fn size() -> nat {
        8
    }

    open spec fn bits(self) -> nat {
        self.0 as nat
    }

    open spec fn of_bits(bits: nat) -> DoubleBits {
        DoubleBits(bits as u64)
    }

    open spec fn datatype() -> UccDatatype {
        UccDatatype::Float64
    }

    proof fn lemma_bits(self) {
        reveal_with_fuel(values_in, 9);
    }

    proof fn lemma_of_bits(bits: nat) {
        reveal_with_fuel(values_in, 9);
    }

    proof fn lemma_size() {
        assert(Self::SIZE == 8);
    }

    fn to_bits(self) -> (bits: u64) {
        self.0 as u64
    }

    fn from_bits(bits: u64) -> (value: DoubleBits) {
        DoubleBits(bits as u64)
    }

    fn ucc_datatype() -> (datatype: UccDatatype) {
        UccDatatype::Float64
    }
}

/// The bits of an integer are its value in two's complement.
pub proof fn law_integers_are_in_twos_complement(
    u: (u8, u16, u32, u64),
    i: (i8, i16, i32, i64),
)
    ensures
        u.0.bits() == u.0,
        u.1.bits() == u.1,
        u.2.bits() == u.2,
        u.3.bits() == u.3,
        i.0.bits() == i.0 as int % 0x100,
        i.1.bits() == i.1 as int % 0x1_0000,
        i.2.bits() == i.2 as int % 0x1_0000_0000,
        i.3.bits() == i.3 as int % 0x1_0000_0000_0000_0000,
{
}

/// A floating-point number is carried by its bit pattern.
pub proof fn law_floats_are_bit_patterns(single: SingleBits, double: DoubleBits)
    ensures
        single.bits() == single.0,
        double.bits() == double.0,
{
}

/// Each type has the size and the UCC type of its name.
pub proof fn law_types_are_those_of_their_names()
    ensures
        u8::size() == 1 && i8::size() == 1,
        u16::size() == 2 && i16::size() == 2,
        u32::size() == 4 && i32::size() == 4 && SingleBits::size() == 4,
        u64::size() == 8 && i64::size() == 8 && DoubleBits::size() == 8,
        u8::datatype() is Uint8 && i8::datatype() is Int8,
        u16::datatype() is Uint16 && i16::datatype() is Int16,
        u32::datatype() is Uint32 && i32::datatype() is Int32,
        u64::datatype() is Uint64 && i64::datatype() is Int64,
        SingleBits::datatype() is Float32 && DoubleBits::datatype() is Float64,
{
}

/// The bytes of values one after the other.
pub open spec fn encoded<T: Pod>(order: ByteOrder, values: Seq<T>) -> Seq<u8>
    decreases values.len(),
{
    if values.len() == 0 {
        seq![]
    } else {
        encoded(order, values.drop_last()) + order.bytes(values.last().bits(), T::size())
    }
}

/// The bytes from which value `i` is read.
pub open spec fn chunk<T: Pod>(bytes: Seq<u8>, i: int) -> Seq<u8> {
    bytes.subrange(i * T::size(), i * T::size() + T::size())
}

/// The values read from whole chunks of bytes; an incomplete last chunk is left out.
pub open spec fn decoded<T: Pod>(order: ByteOrder, bytes: Seq<u8>) -> Seq<T> {
    Seq::new(
        bytes.len() / T::size(),
        |i: int| T::of_bits(order.number(chunk::<T>(bytes, i))),
    )
}

/// The bytes of values have the length of the values times the size of one.
pub proof fn law_encoded_len<T: Pod>(order: ByteOrder, values: Seq<T>)
    ensures
        encoded(order, values).len() == values.len() * T::size(),
    decreases values.len(),
{
    if values.len() > 0 {
        law_encoded_len(order, values.drop_last());
        values.last().lemma_bits();
        order.law_number_of_bytes(values.last().bits(), T::size());
        let n = values.len() as int;
        assert(n * T::size() == (n - 1) * T::size() + T::size()) by (nonlinear_arith);
    }
}

/// Chunk `i` of the bytes of values is the bytes of value `i`.
pub proof fn law_encoded_chunk<T: Pod>(order: ByteOrder, values: Seq<T>, i: int)
    requires
        0 <= i < values.len(),
    ensures
        i * T::size() + T::size() <= encoded(order, values).len(),
        0 <= i * T::size(),
        chunk::<T>(encoded(order, values), i) == order.bytes(values[i].bits(), T::size()),
    decreases values.len(),
{
    let rest = values.drop_last();
    law_encoded_len(order, values);
    law_encoded_len(order, rest);
    values.last().lemma_bits();
    order.law_number_of_bytes(values.last().bits(), T::size());
    let n = values.len() as int;
    assert(0 <= i * T::size() && i * T::size() + T::size() <= n * T::size()) by (nonlinear_arith)
        requires
            0 <= i < n,
    ;
    if i < n - 1 {
        law_encoded_chunk(order, rest, i);
        assert(chunk::<T>(encoded(order, values), i) =~= chunk::<T>(encoded(order, rest), i));
    } else {
        assert(chunk::<T>(encoded(order, values), i) =~= order.bytes(
            values[i].bits(),
            T::size(),
        ));
    }
}

/// Values read from their own bytes are the values, whichever order the bytes stand in.
pub proof fn law_decode_undoes_encode<T: Pod>(order: ByteOrder, values: Seq<T>)
    ensures
        decoded::<T>(order, encoded(order, values)) == values,
{
    T::lemma_size();
    law_encoded_len(order, values);
    let bytes = encoded(order, values);
    let n = values.len();
    assert(bytes.len() / T::size() == n) by (nonlinear_arith)
        requires
            bytes.len() == n * T::size(),
            T::size() > 0,
    ;
    assert forall|i: int| 0 <= i < n implies #[trigger] decoded::<T>(order, bytes)[i]
        == values[i] by {
        law_encoded_chunk(order, values, i);
        values[i].lemma_bits();
        order.law_number_of_bytes(values[i].bits(), T::size());
    }
    assert(decoded::<T>(order, bytes) =~= values);
}

/// The bytes of values in two parts are the bytes of the one part and then of the other.
pub proof fn law_encoding_distributes<T: Pod>(order: ByteOrder, a: Seq<T>, b: Seq<T>)
    ensures
        encoded(order, a + b) == encoded(order, a) + encoded(order, b),
    decreases b.len(),
{
    if b.len() == 0 {
        assert(a + b =~= a);
        assert(encoded(order, a) + encoded(order, b) =~= encoded(order, a));
    } else {
        law_encoding_distributes(order, a, b.drop_last());
        assert((a + b).drop_last() =~= a + b.drop_last());
        assert(encoded(order, a + b) =~= encoded(order, a) + encoded(order, b));
    }
}

/// Bytes that are whole chunks are the bytes of the values read from them.
pub proof fn law_encode_undoes_decode<T: Pod>(order: ByteOrder, bytes: Seq<u8>)
    requires
        bytes.len() % T::size() == 0,
    ensures
        encoded(order, decoded::<T>(order, bytes)) == bytes,
{
    T::lemma_size();
    let size = T::size() as int;
    let values = decoded::<T>(order, bytes);
    let again = encoded(order, values);
    law_encoded_len(order, values);
    let n = bytes.len() as int / size;
    assert(n * size == bytes.len()) by (nonlinear_arith)
        requires
            n == bytes.len() as int / size,
            bytes.len() as int % size == 0,
            size > 0,
    ;
    assert forall|at: int| 0 <= at < bytes.len() implies again[at] == bytes[at] by {
        let i = at / size;
        let within = at % size;
        assert(at == i * size + within && 0 <= within < size && 0 <= i < n) by (nonlinear_arith)
            requires
                i == at / size,
                within == at % size,
                0 <= at < n * size,
                size > 0,
        ;
        assert(0 <= i * size && i * size + size <= n * size) by (nonlinear_arith)
            requires
                0 <= i < n,
                size > 0,
        ;
        law_encoded_chunk(order, values, i);
        let piece = chunk::<T>(bytes, i);
        order.law_bytes_of_number(piece);
        T::lemma_of_bits(order.number(piece));
        assert(chunk::<T>(again, i) == piece);
        assert(again[at] == chunk::<T>(again, i)[within]);
        assert(bytes[at] == piece[within]);
    }
    assert(again =~= bytes);
}

/// An incomplete last chunk is left out: as many values are read as whole chunks are there, and
/// bytes after them do not matter.
pub proof fn law_incomplete_chunk_is_left_out<T: Pod>(
    order: ByteOrder,
    values: Seq<T>,
    rest: Seq<u8>,
)
    requires
        rest.len() < T::size(),
    ensures
        decoded::<T>(order, encoded(order, values) + rest) == values,
{
    T::lemma_size();
    law_encoded_len(order, values);
    law_decode_undoes_encode(order, values);
    let whole = encoded(order, values);
    let bytes = whole + rest;
    let n = values.len();
    assert(bytes.len() / T::size() == n && whole.len() / T::size() == n) by (nonlinear_arith)
        requires
            whole.len() == n * T::size(),
            bytes.len() == whole.len() + rest.len(),
            rest.len() < T::size(),
    ;
    assert forall|i: int| 0 <= i < n implies #[trigger] decoded::<T>(order, bytes)[i]
        == values[i] by {
        law_encoded_chunk(order, values, i);
        assert(chunk::<T>(bytes, i) =~= chunk::<T>(whole, i));
        assert(decoded::<T>(order, whole)[i] == values[i]);
    }
    assert(decoded::<T>(order, bytes) =~= values);
}

/// Different values have different bytes.
pub proof fn law_encoding_is_faithful<T: Pod>(order: ByteOrder, a: Seq<T>, b: Seq<T>)
    requires
        encoded(order, a) == encoded(order, b),
    ensures
        a == b,
{
    law_decode_undoes_encode(order, a);
    law_decode_undoes_encode(order, b);
}

/// Encode values one after the other in a given order.
pub fn encode_values<T: Pod>(order: ByteOrder, values: &[T]) -> (bytes: Vec<u8>)
    ensures
        bytes@ == encoded(order, values@),
{
    let mut bytes: Vec<u8> = Vec::new();
    let mut next: usize = 0;
    assert(values@.take(0) =~= seq![]);
    while next < values.len()
        invariant
            next <= values@.len(),
            bytes@ == encoded(order, values@.take(next as int)),
        decreases values@.len() - next,
    {
        values[next].encode_in(order, &mut bytes);
        assert(values@.take(next + 1).drop_last() =~= values@.take(next as int));
        next = next + 1;
    }
    assert(values@.take(next as int) =~= values@);
    bytes
}

/// Decode whole chunks of bytes in a given order.
pub fn decode_values<T: Pod>(order: ByteOrder, bytes: &[u8]) -> (values: Vec<T>)
    ensures
        values@ == decoded::<T>(order, bytes@),
{
    proof {
        T::lemma_size();
    }
    let total = bytes.len();
    let count = total / T::SIZE;
    let mut values: Vec<T> = Vec::new();
    let mut next: usize = 0;
    let mut at: usize = 0;
    while next < count
        invariant
            T::SIZE == T::size(),
            1 <= T::size() <= 8,
            next <= count,
            total == bytes@.len(),
            count == total as nat / T::size(),
            at == next * T::size(),
            values@ =~= decoded::<T>(order, bytes@).take(next as int),
        decreases count - next,
    {
        proof {
            assert(next * T::size() + T::size() <= total && (next + 1) * T::size() == next * T::size()
                + T::size()) by (nonlinear_arith)
                requires
                    0 <= next < count,
                    count == total as nat / T::size(),
                    T::size() > 0,
            ;
            order.law_bytes_of_number(chunk::<T>(bytes@, next as int));
        }
        let piece = vstd::slice::slice_subrange(bytes, at, at + T::SIZE);
        values.push(T::from_bits(order.read(piece)));
        at = at + T::SIZE;
        next = next + 1;
    }
    assert(values@ =~= decoded::<T>(order, bytes@));
    values
}

} // verus!

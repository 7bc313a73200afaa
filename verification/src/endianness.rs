use vstd::prelude::*;

verus! {

/// Byte order of a D-Bus message, as given by its first byte.
/// Both the header and the body of a message are in this byte order.
#[derive(Debug, PartialEq, Eq, PartialOrd, Ord, Clone, Copy)]
pub enum Endianness {
    /// Marked by the byte `b'l'`.
    LittleEndian,
    /// Marked by the byte `b'B'`.
    BigEndian,
}

/// The marker byte `b'l'`.
pub const LITTLE_ENDIAN_MARKER: u8 = 0x6c;

/// The marker byte `b'B'`.
pub const BIG_ENDIAN_MARKER: u8 = 0x42;

impl From<Endianness> for u8 {
    /// The marker byte of a byte order.
    fn from(value: Endianness) -> (r: u8) {
        value.marker()
    }
}

impl vstd::std_specs::convert::FromSpecImpl<Endianness> for u8 {
    open spec fn obeys_from_spec() -> bool {
        true
    }

    open spec fn from_spec(v: Endianness) -> u8 {
        v.spec_marker()
    }
}

impl TryFrom<u8> for Endianness {
    type Error = u8;

    /// The byte order that a marker byte stands for; the byte itself where it stands for none.
    fn try_from(value: u8) -> (r: Result<Self, Self::Error>) {
        Endianness::from_marker(value)
    }
}

impl vstd::std_specs::convert::TryFromSpecImpl<u8> for Endianness {
    open spec fn obeys_try_from_spec() -> bool {
        true
    }

    open spec fn try_from_spec(v: u8) -> Result<Self, Self::Error> {
        Endianness::spec_from_marker(v)
    }
}

/// The number that bytes stand for when the least significant byte comes first.
pub open spec fn lsb_value(b: Seq<u8>) -> nat
    decreases b.len(),
{
    if b.len() == 0 {
        0
    } else {
        b[0] as nat + 0x100 * lsb_value(b.drop_first())
    }
}

/// The `n` lowest bytes of `v`, least significant first.
pub open spec fn lsb_bytes(v: nat, n: nat) -> Seq<u8>
    decreases n,
{
    if n == 0 {
        Seq::empty()
    } else {
        seq![(v % 0x100) as u8] + lsb_bytes(v / 0x100, (n - 1) as nat)
    }
}

/// `256` to the power `n`.
pub open spec fn pow256(n: nat) -> nat
    decreases n,
{
    if n == 0 {
        1
    } else {
        0x100 * pow256((n - 1) as nat)
    }
}

impl Endianness {
    /// The marker byte that stands for this byte order on the wire.
    pub open spec fn spec_marker(self) -> u8 {
        match self {
            Endianness::LittleEndian => LITTLE_ENDIAN_MARKER,
            Endianness::BigEndian => BIG_ENDIAN_MARKER,
        }
    }

    /// The byte order that a marker byte stands for; the byte itself where it stands for none.
    pub open spec fn spec_from_marker(b: u8) -> Result<Endianness, u8> {
        if b == LITTLE_ENDIAN_MARKER {
            Ok(Endianness::LittleEndian)
        } else if b == BIG_ENDIAN_MARKER {
            Ok(Endianness::BigEndian)
        } else {
            Err(b)
        }
    }

    /// Reorders `b` so that its least significant byte comes first.
    pub open spec fn lsb_first(self, b: Seq<u8>) -> Seq<u8> {
        match self {
            Endianness::LittleEndian => b,
            Endianness::BigEndian => b.reverse(),
        }
    }

    /// The unsigned number that the bytes `b` stand for in this byte order.
    pub open spec fn value_of(self, b: Seq<u8>) -> nat {
        lsb_value(self.lsb_first(b))
    }

    /// The `n` lowest bytes of `v`, written in this byte order.
    pub open spec fn bytes_of(self, v: nat, n: nat) -> Seq<u8> {
        self.lsb_first(lsb_bytes(v, n))
    }

    /// The marker byte of this byte order.
    pub fn marker(self) -> (r: u8)
        ensures
            r == self.spec_marker(),
    {
        match self {
            Endianness::LittleEndian => LITTLE_ENDIAN_MARKER,
            Endianness::BigEndian => BIG_ENDIAN_MARKER,
        }
    }

    /// The byte order of a marker byte, or the byte back where it marks none.
    pub fn from_marker(b: u8) -> (r: Result<Endianness, u8>)
        ensures
            r == Self::spec_from_marker(b),
    {
        if b == LITTLE_ENDIAN_MARKER {
            Ok(Endianness::LittleEndian)
        } else if b == BIG_ENDIAN_MARKER {
            Ok(Endianness::BigEndian)
        } else {
            Err(b)
        }
    }

    pub fn u16_from_bytes(&self, bytes: [u8; 2]) -> (r: u16)
        ensures
            r as nat == self.value_of(bytes@),
    {
        proof {
            reveal_with_fuel(lsb_value, 3);
        }
        let (b0, b1) = match self {
            Endianness::LittleEndian => (bytes[0], bytes[1]),
            Endianness::BigEndian => (bytes[1], bytes[0]),
        };
        b0 as u16 + b1 as u16 * 0x100
    }

    pub fn u16_to_bytes(&self, val: u16) -> (r: [u8; 2])
        ensures
            r@ == self.bytes_of(val as nat, 2),
    {
        proof {
            reveal_with_fuel(lsb_bytes, 3);
        }
        let l0 = (val % 0x100) as u8;
        let l1 = (val / 0x100) as u8;
        let r = match self {
            Endianness::LittleEndian => [l0, l1],
            Endianness::BigEndian => [l1, l0],
        };
        assert(r@ =~= self.bytes_of(val as nat, 2));
        r
    }

    pub fn u32_from_bytes(&self, bytes: [u8; 4]) -> (r: u32)
        ensures
            r as nat == self.value_of(bytes@),
    {
        proof {
            reveal_with_fuel(lsb_value, 5);
        }
        let (b0, b1, b2, b3) = match self {
            Endianness::LittleEndian => (bytes[0], bytes[1], bytes[2], bytes[3]),
            Endianness::BigEndian => (bytes[3], bytes[2], bytes[1], bytes[0]),
        };
        b0 as u32 + b1 as u32 * 0x100 + b2 as u32 * 0x1_0000 + b3 as u32 * 0x100_0000
    }

    pub fn u32_to_bytes(&self, val: u32) -> (r: [u8; 4])
        ensures
            r@ == self.bytes_of(val as nat, 4),
    {
        proof {
            reveal_with_fuel(lsb_bytes, 5);
        }
        let l0 = (val % 0x100) as u8;
        let l1 = (val / 0x100 % 0x100) as u8;
        let l2 = (val / 0x1_0000 % 0x100) as u8;
        let l3 = (val / 0x100_0000) as u8;
        assert(val / 0x100 / 0x100 == val / 0x1_0000) by (nonlinear_arith);
        assert(val / 0x1_0000 / 0x100 == val / 0x100_0000) by (nonlinear_arith);
        assert(val / 0x100_0000 < 0x100) by (nonlinear_arith)
            requires val <= 0xffff_ffff;
        let r = match self {
            Endianness::LittleEndian => [l0, l1, l2, l3],
            Endianness::BigEndian => [l3, l2, l1, l0],
        };
        assert(r@ =~= self.bytes_of(val as nat, 4));
        r
    }

    pub fn u64_from_bytes(&self, bytes: [u8; 8]) -> (r: u64)
        ensures
            r as nat == self.value_of(bytes@),
    {
        proof {
            reveal_with_fuel(lsb_value, 9);
        }
        let l = match self {
            Endianness::LittleEndian => bytes,
            Endianness::BigEndian => [
                bytes[7],
                bytes[6],
                bytes[5],
                bytes[4],
                bytes[3],
                bytes[2],
                bytes[1],
                bytes[0],
            ],
        };
        assert(l@ =~= self.lsb_first(bytes@));
        l[0] as u64 + l[1] as u64 * 0x100 + l[2] as u64 * 0x1_0000 + l[3] as u64 * 0x100_0000
            + l[4] as u64 * 0x1_0000_0000 + l[5] as u64 * 0x100_0000_0000 + l[6] as u64
            * 0x1_0000_0000_0000 + l[7] as u64 * 0x100_0000_0000_0000
    }

    pub fn i16_from_bytes(&self, bytes: [u8; 2]) -> (r: i16)
        ensures
            r == (self.value_of(bytes@) as u16) as i16,
    {
        self.u16_from_bytes(bytes) as i16
    }

    pub fn i16_to_bytes(&self, val: i16) -> (r: [u8; 2])
        ensures
            r@ == self.bytes_of((val as u16) as nat, 2),
    {
        self.u16_to_bytes(val as u16)
    }

    pub fn i32_from_bytes(&self, bytes: [u8; 4]) -> (r: i32)
        ensures
            r == (self.value_of(bytes@) as u32) as i32,
    {
        self.u32_from_bytes(bytes) as i32
    }

    pub fn i32_to_bytes(&self, val: i32) -> (r: [u8; 4])
        ensures
            r@ == self.bytes_of((val as u32) as nat, 4),
    {
        self.u32_to_bytes(val as u32)
    }

    pub fn i64_from_bytes(&self, bytes: [u8; 8]) -> (r: i64)
        ensures
            r == (self.value_of(bytes@) as u64) as i64,
    {
        self.u64_from_bytes(bytes) as i64
    }

    pub fn i64_to_bytes(&self, val: i64) -> (r: [u8; 8])
        ensures
            r@ == self.bytes_of((val as u64) as nat, 8),
    {
        self.u64_to_bytes(val as u64)
    }

    pub fn u64_to_bytes(&self, val: u64) -> (r: [u8; 8])
        ensures
            r@ == self.bytes_of(val as nat, 8),
    {
        let mut l: [u8; 8] = [0; 8];
        let mut v: u64 = val;
        let mut i: usize = 0;
        assert(pow256(0) == 1);
        assert(l@.take(0) + lsb_bytes(val as nat, 8) =~= lsb_bytes(val as nat, 8));
        while i < 8
            invariant
                0 <= i <= 8,
                v as nat == val as nat / pow256(i as nat),
                lsb_bytes(val as nat, 8) == l@.take(i as int) + lsb_bytes(v as nat, (8 - i) as nat),
                l@.len() == 8,
            decreases 8 - i,
        {
            proof {
                lemma_div_pow256(val as nat, i as nat);
                reveal_with_fuel(lsb_bytes, 2);
            }
            let ghost before = l@;
            l[i] = (v % 0x100) as u8;
            v = v / 0x100;
            i = i + 1;
            assert(l@.take(i as int) =~= before.take(i - 1) + seq![(l@[i - 1])]);
        }
        assert(l@.take(8) =~= l@);
        assert(lsb_bytes(v as nat, 0) =~= Seq::<u8>::empty());
        let r = match self {
            Endianness::LittleEndian => l,
            Endianness::BigEndian => [l[7], l[6], l[5], l[4], l[3], l[2], l[1], l[0]],
        };
        assert(r@ =~= self.bytes_of(val as nat, 8));
        r
    }
}

proof fn lemma_div_pow256(v: nat, i: nat)
    ensures
        v / pow256(i) / 0x100 == v / pow256(i + 1),
        pow256(i) > 0,
    decreases i,
{
    lemma_pow256_positive(i);
    let p = pow256(i);
    assert(pow256(i + 1) == 0x100 * p);
    assert(v / p / 0x100 == v / (p * 0x100)) by {
        vstd::arithmetic::div_mod::lemma_div_denominator(v as int, p as int, 0x100);
    }
    assert(p * 0x100 == 0x100 * p) by (nonlinear_arith);
}

proof fn lemma_pow256_positive(i: nat)
    ensures
        pow256(i) > 0,
    decreases i,
{
    if i > 0 {
        lemma_pow256_positive((i - 1) as nat);
    }
}

/// Reading back the bytes written for a number gives the number, wherever it
/// fits in the bytes written.
pub proof fn lemma_lsb_value_of_bytes(v: nat, n: nat)
    requires
        v < pow256(n),
    ensures
        lsb_bytes(v, n).len() == n,
        lsb_value(lsb_bytes(v, n)) == v,
    decreases n,
{
    if n > 0 {
        let rest = lsb_bytes(v / 0x100, (n - 1) as nat);
        assert(v / 0x100 < pow256((n - 1) as nat)) by {
            vstd::arithmetic::div_mod::lemma_div_by_multiple_is_strongly_ordered(
                v as int, (0x100 * pow256((n - 1) as nat)) as int, pow256((n - 1) as nat) as int, 0x100);
            assert(pow256(n) == 0x100 * pow256((n - 1) as nat));
            vstd::arithmetic::div_mod::lemma_div_by_multiple(pow256((n - 1) as nat) as int, 0x100);
            assert((0x100 * pow256((n - 1) as nat)) as int == pow256((n - 1) as nat) * 0x100) by (nonlinear_arith);
        }
        lemma_lsb_value_of_bytes(v / 0x100, (n - 1) as nat);
        assert(lsb_bytes(v, n).drop_first() =~= rest);
    }
}

/// The marker byte of a byte order reads back as that byte order, and a byte
/// that reads as a byte order is that order's marker.
pub proof fn lemma_marker_roundtrip(e: Endianness, b: u8)
    ensures
        Endianness::spec_from_marker(e.spec_marker()) == Ok::<Endianness, u8>(e),
        Endianness::spec_from_marker(b) matches Ok(f) ==> f.spec_marker() == b,
        Endianness::spec_from_marker(b) matches Err(x) ==> x == b,
{
}

/// Writing back the number that bytes stand for gives the bytes.
pub proof fn lemma_lsb_bytes_of_value(b: Seq<u8>)
    ensures
        lsb_bytes(lsb_value(b), b.len()) == b,
        lsb_value(b) < pow256(b.len()),
    decreases b.len(),
{
    if b.len() > 0 {
        let rest = b.drop_first();
        lemma_lsb_bytes_of_value(rest);
        let v = lsb_value(b);
        assert(v % 0x100 == b[0] as nat);
        assert(v / 0x100 == lsb_value(rest));
        assert(lsb_bytes(v, b.len()) =~= b);
    }
}

/// `lsb_bytes` writes as many bytes as asked.
pub proof fn lemma_lsb_bytes_len(v: nat, n: nat)
    ensures
        lsb_bytes(v, n).len() == n,
    decreases n,
{
    if n > 0 {
        lemma_lsb_bytes_len(v / 0x100, (n - 1) as nat);
    }
}

impl Endianness {
    /// The bytes written for a number are as many as asked, in either byte order.
    pub proof fn lemma_bytes_of_len(self, v: nat, n: nat)
        ensures
            self.bytes_of(v, n).len() == n,
    {
        lemma_lsb_bytes_len(v, n);
    }

    /// A `u32` read back from its four bytes.
    pub proof fn lemma_u32_roundtrip(self, v: u32)
        ensures
            self.bytes_of(v as nat, 4).len() == 4,
            self.value_of(self.bytes_of(v as nat, 4)) == v,
    {
        assert(pow256(4) == 0x1_0000_0000) by {
            reveal_with_fuel(pow256, 5);
        }
        self.lemma_value_of_bytes_of(v as nat, 4);
    }

    /// Reading back what was written: the number that the `n` bytes written for
    /// `v` stand for is `v`, in either byte order, wherever `v` fits in `n` bytes.
    pub proof fn lemma_value_of_bytes_of(self, v: nat, n: nat)
        requires
            v < pow256(n),
        ensures
            self.bytes_of(v, n).len() == n,
            self.value_of(self.bytes_of(v, n)) == v,
    {
        lemma_lsb_value_of_bytes(v, n);
        assert(self.lsb_first(self.lsb_first(lsb_bytes(v, n))) =~= lsb_bytes(v, n));
    }

    /// Writing back what was read: the bytes written for the number that `b`
    /// stands for are `b` itself, in either byte order.
    pub proof fn lemma_bytes_of_value_of(self, b: Seq<u8>)
        ensures
            self.bytes_of(self.value_of(b), b.len()) == b,
    {
        let l = self.lsb_first(b);
        lemma_lsb_bytes_of_value(l);
        assert(self.lsb_first(l) =~= b);
    }
}

} // verus!

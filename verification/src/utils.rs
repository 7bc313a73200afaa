//! Hexadecimal text: the user id of the `EXTERNAL` authentication mechanism,
//! and random 128-bit identifiers.
use vstd::prelude::*;
use vstd::string::StringSliceAdditionalSpecFns;

verus! {

/// The lower-case hexadecimal digit for a number below 16.
pub open spec fn hex_digit(n: u8) -> u8 {
    if n < 10 {
        (0x30 + n) as u8
    } else {
        (0x57 + n) as u8
    }
}

/// Each byte of `b` as two lower-case hexadecimal digits, high nibble first.
pub open spec fn hex_of(b: Seq<u8>) -> Seq<u8> {
    Seq::new(
        2 * b.len(),
        |i: int|
            if i % 2 == 0 {
                hex_digit(b[i / 2] / 16)
            } else {
                hex_digit(b[i / 2] % 16)
            },
    )
}

/// The decimal digits of `v`, as ASCII, without leading zeros.
pub open spec fn decimal(v: nat) -> Seq<u8>
    decreases v,
{
    if v < 10 {
        seq![(0x30 + v) as u8]
    } else {
        decimal(v / 10).push((0x30 + v % 10) as u8)
    }
}

/// Every byte is below 0x80.
pub open spec fn all_ascii(b: Seq<u8>) -> bool {
    forall|i: int| 0 <= i < b.len() ==> #[trigger] b[i] < 0x80
}

fn hex_digit_exec(n: u8) -> (r: u8)
    requires
        n < 16,
    ensures
        r == hex_digit(n),
{
    if n < 10 {
        0x30 + n
    } else {
        0x57 + n
    }
}

/// Writes each byte of `src` into `dst` as two lower-case hexadecimal digits.
fn hex_encode(src: &[u8], dst: &mut [u8])
    requires
        2 * src@.len() <= old(dst)@.len(),
    ensures
        final(dst)@.len() == old(dst)@.len(),
        final(dst)@.take((2 * src@.len()) as int) == hex_of(src@),
        final(dst)@.skip((2 * src@.len()) as int) == old(dst)@.skip((2 * src@.len()) as int),
{
    let n = src.len();
    let dlen = dst.len();
    let mut i: usize = 0;
    while i < n
        invariant
            n == src@.len(),
            2 * n <= dst@.len(),
            dst@.len() == old(dst)@.len(),
            dst@.len() == dlen,
            0 <= i <= n,
            forall|j: int| 0 <= j < 2 * i ==> #[trigger] dst@[j] == hex_of(src@)[j],
            forall|j: int| 2 * n <= j < dst@.len() ==> #[trigger] dst@[j] == old(dst)@[j],
        decreases n - i,
    {
        let b = src[i];
        assert(b >> 4 == b / 16) by (bit_vector);
        assert(b & 0xf == b % 16) by (bit_vector);
        let hi = hex_digit_exec(b >> 4);
        let lo = hex_digit_exec(b & 0xf);
        assert(i * 2 + 1 < dst@.len());
        dst[i * 2] = hi;
        dst[i * 2 + 1] = lo;
        proof {
            assert((2 * i) % 2 == 0 && (2 * i) / 2 == i);
            assert((2 * i + 1) % 2 == 1 && (2 * i + 1) / 2 == i);
        }
        i = i + 1;
    }
    assert(dst@.take(2 * n as int) =~= hex_of(src@));
    assert(dst@.skip(2 * n as int) =~= old(dst)@.skip(2 * n as int));
}

/// Hexadecimal digits are ASCII.
proof fn lemma_hex_ascii(b: Seq<u8>)
    ensures
        all_ascii(hex_of(b)),
{
}

/// ASCII bytes are valid UTF-8, and decode to one character per byte.
pub proof fn lemma_ascii_valid_utf8(b: Seq<u8>)
    requires
        all_ascii(b),
    ensures
        vstd::utf8::valid_utf8(b),
        vstd::utf8::decode_utf8(b) == Seq::new(b.len(), |i: int| b[i] as char),
{
    let cs = Seq::new(b.len(), |i: int| b[i] as char);
    assert(vstd::utf8::is_ascii_chars(cs));
    vstd::utf8::is_ascii_chars_encode_utf8(cs);
    assert(vstd::utf8::encode_utf8(cs) =~= b);
    vstd::utf8::encode_utf8_valid_utf8(cs);
    vstd::utf8::encode_utf8_decode_utf8(cs);
}

/// `std::str::from_utf8`: the text of `b` where `b` is valid UTF-8.
/// The contract claims, as the documentation of `from_utf8` says, that it
/// succeeds exactly on valid UTF-8, and that the text then has exactly the
/// bytes `b`.
#[verifier::external_body]
fn str_from_utf8(b: &[u8]) -> (r: Option<&str>)
    ensures
        r is Some <==> vstd::utf8::valid_utf8(b@),
        r matches Some(s) ==> s.spec_bytes() == b@,
{
    std::str::from_utf8(b).ok()
}

/// `itoa::Buffer::format` on a `u32`: the claim is that it writes the decimal
/// digits of the number, without sign or leading zeros.
#[verifier::external_body]
fn format_decimal(val: u32) -> (r: Vec<u8>)
    ensures
        r@ == decimal(val as nat),
{
    let mut buf = itoa::Buffer::new();
    buf.format(val).as_bytes().to_vec()
}

/// The hexadecimal form of the decimal text of a number, as the `EXTERNAL`
/// authentication mechanism sends a user id.
#[derive(PartialEq, Eq, PartialOrd, Ord, Hash)]
pub struct HexU32 {
    buf: [u8; 20],
    len: u8,
}

impl HexU32 {
    #[verifier::type_invariant]
    spec fn well_formed(self) -> bool {
        &&& self.len <= 20
        &&& all_ascii(self.buf@.take(self.len as int))
        &&& forall|i: int| self.len <= i < 20 ==> #[trigger] self.buf@[i] == 0
    }

    /// The digits held.
    pub closed spec fn text(self) -> Seq<u8> {
        self.buf@.take(self.len as int)
    }

    /// The hexadecimal encoding of the decimal digits of `val`.
    pub fn new(val: u32) -> (r: Self)
        ensures
            r.text() == hex_of(decimal(val as nat)),
    {
        let dec = format_decimal(val);
        proof {
            lemma_decimal_len_u32(val);
        }
        let mut buf = [0u8; 20];
        let ghost zero = buf@;
        assert(forall|i: int| 0 <= i < 20 ==> zero[i] == 0);
        hex_encode(dec.as_slice(), &mut buf);
        let len = (dec.len() * 2) as u8;
        proof {
            lemma_hex_ascii(dec@);
            assert forall|i: int| len <= i < 20 implies #[trigger] buf@[i] == 0 by {
                assert(buf@.skip(len as int)[i - len] == zero.skip(len as int)[i - len]);
            }
        }
        HexU32 { buf, len }
    }

    /// The digits as text.
    pub fn as_str(&self) -> (r: &str)
        ensures
            r.spec_bytes() == self.text(),
            r@ == Seq::new(self.text().len(), |i: int| self.text()[i] as char),
    {
        proof {
            use_type_invariant(self);
            lemma_ascii_valid_utf8(self.buf@.take(self.len as int));
        }
        let r = str_from_utf8(self.buf.as_slice().split_at(self.len as usize).0).unwrap();
        proof {
            vstd::utf8::decode_utf8_encode_utf8(self.text());
            assert(r@ == vstd::utf8::decode_utf8(r.spec_bytes())) by {
                vstd::utf8::encode_utf8_decode_utf8(r@);
            }
        }
        r
    }
}

/// `getrandom::Error`, the error of the system's random source.
#[verifier::external_type_specification]
#[verifier::external_body]
pub struct ExRandomError(getrandom::Error);

/// `getrandom::fill`: fills `dest` from the system's random source. What it
/// writes rests on chance and is not stated; the claim is only that the
/// buffer keeps its length.
#[verifier::external_body]
fn fill_random(dest: &mut [u8]) -> (r: Result<(), getrandom::Error>)
    ensures
        final(dest)@.len() == old(dest)@.len(),
{
    getrandom::fill(dest)
}

/// A random 128-bit identifier, as 32 lower-case hexadecimal digits.
#[derive(PartialEq, Eq, PartialOrd, Ord, Hash)]
pub struct Uuid {
    inner: [u8; 32],
}

impl View for Uuid {
    type V = Seq<u8>;

    closed spec fn view(&self) -> Seq<u8> {
        self.inner@
    }
}

impl Uuid {
    #[verifier::type_invariant]
    spec fn well_formed(self) -> bool {
        exists|b: Seq<u8>| b.len() == 16 && #[trigger] hex_of(b) == self.inner@
    }

    /// A new identifier from the system's random source.
    pub fn new() -> (r: Result<Uuid, getrandom::Error>)
        ensures
            r matches Ok(u) ==> exists|b: Seq<u8>| b.len() == 16 && #[trigger] hex_of(b) == u@,
    {
        let mut bytes = [0u8; 16];
        fill_random(&mut bytes)?;
        Ok(Self::from_random_bytes(bytes))
    }

    /// The identifier whose digits encode `bytes`.
    pub fn from_random_bytes(bytes: [u8; 16]) -> (r: Uuid)
        ensures
            r@ == hex_of(bytes@),
    {
        let mut inner = [0u8; 32];
        hex_encode(bytes.as_slice(), &mut inner);
        assert(inner@ =~= inner@.take(32));
        Uuid { inner }
    }

    /// The identifier as text.
    pub fn as_str(&self) -> (r: &str)
        ensures
            r.spec_bytes() == self@,
            r@ == Seq::new(self@.len(), |i: int| self@[i] as char),
    {
        proof {
            use_type_invariant(self);
            let b = choose|b: Seq<u8>| b.len() == 16 && #[trigger] hex_of(b) == self.inner@;
            lemma_hex_ascii(b);
            lemma_ascii_valid_utf8(self.inner@);
        }
        let r = str_from_utf8(self.inner.as_slice()).unwrap();
        proof {
            vstd::utf8::decode_utf8_encode_utf8(self.inner@);
            vstd::utf8::encode_utf8_decode_utf8(r@);
        }
        r
    }

    pub fn as_slice(&self) -> (r: &[u8])
        ensures
            r@ == self@,
    {
        self.inner.as_slice()
    }

    pub fn as_inner(&self) -> (r: &[u8; 32])
        ensures
            r@ == self@,
    {
        &self.inner
    }

    pub fn into_inner(self) -> (r: [u8; 32])
        ensures
            r@ == self@,
    {
        self.inner
    }
}

proof fn lemma_decimal_len_u32(v: u32)
    ensures
        decimal(v as nat).len() <= 10,
{
    assert(pow10(10) == 10_000_000_000) by {
        reveal_with_fuel(pow10, 11);
    }
    lemma_decimal_len_at_most(v as nat, 10);
}

spec fn pow10(n: nat) -> nat
    decreases n,
{
    if n == 0 {
        1
    } else {
        10 * pow10((n - 1) as nat)
    }
}

proof fn lemma_decimal_len_at_most(v: nat, n: nat)
    requires
        n >= 1,
        v < pow10(n),
    ensures
        decimal(v).len() <= n,
    decreases n,
{
    if v >= 10 {
        assert(n >= 2) by {
            if n == 1 {
                assert(pow10(1) == 10);
            }
        }
        assert(v / 10 < pow10((n - 1) as nat)) by {
            assert(pow10(n) == 10 * pow10((n - 1) as nat));
        }
        lemma_decimal_len_at_most(v / 10, (n - 1) as nat);
    }
}

} // verus!

use vstd::prelude::*;

verus! {

/// A byte buffer, the container of the binary wire format.
#[derive(Clone, Debug)]
pub struct Octet {
    pub val: Vec<u8>,
}

impl Octet {
    /// An empty buffer.
    pub fn new() -> (r: Octet)
        ensures
            r.val@ == Seq::<u8>::empty(),
    {
        Octet { val: Vec::new() }
    }

    /// A buffer that holds `val`.
    pub fn from_bytes(val: Vec<u8>) -> (r: Octet)
        ensures
            r.val@ == val@,
    {
        Octet { val }
    }

    pub fn len(&self) -> (r: usize)
        ensures
            r == self.val@.len(),
    {
        self.val.len()
    }
}

/// The eight bytes of `v`, most significant first.
pub open spec fn u64_be(v: u64) -> Seq<u8> {
    seq![
        ((v >> 56u64) & 0xff) as u8,
        ((v >> 48u64) & 0xff) as u8,
        ((v >> 40u64) & 0xff) as u8,
        ((v >> 32u64) & 0xff) as u8,
        ((v >> 24u64) & 0xff) as u8,
        ((v >> 16u64) & 0xff) as u8,
        ((v >> 8u64) & 0xff) as u8,
        (v & 0xff) as u8,
    ]
}

/// The integer whose big-endian bytes are `s[0..8]`.
pub open spec fn be_u64(s: Seq<u8>) -> u64 {
    ((s[0] as u64) << 56u64) | ((s[1] as u64) << 48u64) | ((s[2] as u64) << 40u64) | ((
    s[3] as u64) << 32u64) | ((s[4] as u64) << 24u64) | ((s[5] as u64) << 16u64) | ((
    s[6] as u64) << 8u64) | (s[7] as u64)
}

proof fn lemma_byte_cast(v: u64, sh: u64)
    ensures
        (((v >> sh) & 0xff) as u8) as u64 == (v >> sh) & 0xff,
{
    assert((v >> sh) & 0xff < 256) by (bit_vector);
}

/// Reading back the bytes of an integer gives the integer.
pub proof fn lemma_be_round_trip(v: u64)
    ensures
        be_u64(u64_be(v)) == v,
{
    lemma_byte_cast(v, 56);
    lemma_byte_cast(v, 48);
    lemma_byte_cast(v, 40);
    lemma_byte_cast(v, 32);
    lemma_byte_cast(v, 24);
    lemma_byte_cast(v, 16);
    lemma_byte_cast(v, 8);
    lemma_byte_cast(v, 0);
    assert(v >> 0u64 == v) by (bit_vector);
    assert(v == (((v >> 56u64) & 0xff) << 56u64) | (((v >> 48u64) & 0xff) << 48u64) | (((v
        >> 40u64) & 0xff) << 40u64) | (((v >> 32u64) & 0xff) << 32u64) | (((v >> 24u64) & 0xff)
        << 24u64) | (((v >> 16u64) & 0xff) << 16u64) | (((v >> 8u64) & 0xff) << 8u64) | (v
        & 0xff)) by (bit_vector);
}

/// Appends the eight bytes of `v`, most significant first.
pub fn push_u64_be(out: &mut Vec<u8>, v: u64)
    ensures
        final(out)@ == old(out)@ + u64_be(v),
{
    out.push(((v >> 56u64) & 0xff) as u8);
    out.push(((v >> 48u64) & 0xff) as u8);
    out.push(((v >> 40u64) & 0xff) as u8);
    out.push(((v >> 32u64) & 0xff) as u8);
    out.push(((v >> 24u64) & 0xff) as u8);
    out.push(((v >> 16u64) & 0xff) as u8);
    out.push(((v >> 8u64) & 0xff) as u8);
    out.push((v & 0xff) as u8);
    assert(final(out)@ =~= old(out)@ + u64_be(v));
}

/// The integer whose big-endian bytes are `b[off..off + 8]`.
pub fn read_u64_be(b: &Vec<u8>, off: usize) -> (r: u64)
    requires
        off + 8 <= b@.len(),
    ensures
        r == be_u64(b@.subrange(off as int, off + 8)),
{
    let n = b.len();
    assert(off + 7 < n);
    ((b[off] as u64) << 56u64) | ((b[off + 1] as u64) << 48u64) | ((b[off + 2] as u64) << 40u64)
        | ((b[off + 3] as u64) << 32u64) | ((b[off + 4] as u64) << 24u64) | ((b[off + 5] as u64)
        << 16u64) | ((b[off + 6] as u64) << 8u64) | (b[off + 7] as u64)
}

} // verus!

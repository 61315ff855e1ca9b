//! Numbers as bytes, most significant byte first, and reading from bytes.
use vstd::prelude::*;

verus! {

/// The four bytes of a number.
pub open spec fn u32_bytes(value: u32) -> Seq<u8> {
    seq![
        (value >> 24) as u8,
        (value >> 16) as u8,
        (value >> 8) as u8,
        value as u8,
    ]
}

/// The number that four bytes spell.
pub open spec fn u32_of(bytes: Seq<u8>) -> u32 {
    ((bytes[0] as u32) << 24) | ((bytes[1] as u32) << 16) | ((bytes[2] as u32) << 8) | (
    bytes[3] as u32)
}

/// The eight bytes of a number.
pub open spec fn u64_bytes(value: u64) -> Seq<u8> {
    u32_bytes((value >> 32) as u32) + u32_bytes(value as u32)
}

/// The number that eight bytes spell.
pub open spec fn u64_of(bytes: Seq<u8>) -> u64 {
    ((u32_of(bytes.subrange(0, 4)) as u64) << 32) | (u32_of(bytes.subrange(4, 8)) as u64)
}

/// Four bytes of a number spell the number.
pub proof fn lemma_u32_bytes(value: u32)
    ensures
        u32_bytes(value).len() == 4,
        u32_of(u32_bytes(value)) == value,
{
    assert(((((value >> 24) as u8) as u32) << 24) | ((((value >> 16) as u8) as u32) << 16) | ((((
    value >> 8) as u8) as u32) << 8) | ((value as u8) as u32) == value) by (bit_vector);
}

/// Eight bytes of a number spell the number.
pub proof fn lemma_u64_bytes(value: u64)
    ensures
        u64_bytes(value).len() == 8,
        u64_of(u64_bytes(value)) == value,
{
    let high = (value >> 32) as u32;
    let low = value as u32;
    lemma_u32_bytes(high);
    lemma_u32_bytes(low);
    assert(u64_bytes(value).subrange(0, 4) =~= u32_bytes(high));
    assert(u64_bytes(value).subrange(4, 8) =~= u32_bytes(low));
    assert((((value >> 32) as u32) as u64) << 32 | ((value as u32) as u64) == value)
        by (bit_vector);
}

/// A signed number as an unsigned one with the same bits, and back.
pub proof fn lemma_signed(value: i32)
    ensures
        (value as u32) as i32 == value,
{
    assert((value as u32) as i32 == value) by (bit_vector);
}

/// Appends the bytes of a number.
pub fn push_u32(out: &mut Vec<u8>, value: u32)
    ensures
        final(out)@ == old(out)@ + u32_bytes(value),
{
    out.push(#[verifier::truncate] ((value >> 24) as u8));
    out.push(#[verifier::truncate] ((value >> 16) as u8));
    out.push(#[verifier::truncate] ((value >> 8) as u8));
    out.push(#[verifier::truncate] (value as u8));
    assert(out@ =~= old(out)@ + u32_bytes(value));
}

/// Appends the bytes of a number.
pub fn push_u64(out: &mut Vec<u8>, value: u64)
    ensures
        final(out)@ == old(out)@ + u64_bytes(value),
{
    push_u32(out, #[verifier::truncate] ((value >> 32) as u32));
    push_u32(out, #[verifier::truncate] (value as u32));
    assert(out@ =~= old(out)@ + u64_bytes(value));
}

/// Appends bytes.
pub fn push_bytes(out: &mut Vec<u8>, bytes: &[u8])
    ensures
        final(out)@ == old(out)@ + bytes@,
{
    let len: usize = bytes.len();
    let mut i: usize = 0;
    while i < len
        invariant
            i <= len == bytes@.len(),
            out@ == old(out)@ + bytes@.subrange(0, i as int),
        decreases len - i,
    {
        out.push(bytes[i]);
        i = i + 1;
        assert(out@ =~= old(out)@ + bytes@.subrange(0, i as int));
    }
    assert(bytes@.subrange(0, len as int) =~= bytes@);
}

/// Whether two byte strings are equal.
pub fn same_bytes(a: &[u8], b: &[u8]) -> (same: bool)
    ensures
        same == (a@ == b@),
{
    if a.len() != b.len() {
        return false;
    }
    let len: usize = a.len();
    let mut i: usize = 0;
    while i < len
        invariant
            i <= len == a@.len(),
            len == b@.len(),
            forall|j: int| 0 <= j < i ==> a@[j] == b@[j],
        decreases len - i,
    {
        if a[i] != b[i] {
            return false;
        }
        i = i + 1;
    }
    assert(a@ =~= b@);
    true
}

/// Bytes that are read from the front to the end.
pub struct ByteReader<'a> {
    data: &'a [u8],
    pos: usize,
}

impl<'a> ByteReader<'a> {
    #[verifier::type_invariant]
    spec fn inv(&self) -> bool {
        self.pos <= self.data@.len()
    }

    /// The bytes that were not read yet.
    pub closed spec fn view(&self) -> Seq<u8> {
        self.data@.subrange(self.pos as int, self.data@.len() as int)
    }

    /// Starts reading at the first byte.
    pub fn new(data: &'a [u8]) -> (reader: Self)
        ensures
            reader@ == data@,
    {
        assert(data@.subrange(0, data@.len() as int) =~= data@);
        Self { data, pos: 0 }
    }

    /// Reads the given number of bytes. Reads nothing and returns None if there are not enough.
    pub fn read(&mut self, len: usize) -> (bytes: Option<&'a [u8]>)
        ensures
            bytes is Some == (len <= old(self)@.len()),
            bytes matches Some(bytes) ==> bytes@ == old(self)@.subrange(0, len as int)
                && final(self)@ == old(self)@.subrange(len as int, old(self)@.len() as int),
            bytes is None ==> final(self)@ == old(self)@,
    {
        proof {
            use_type_invariant(&*self);
        }
        let total: usize = self.data.len();
        if len > total - self.pos {
            return None;
        }
        let start: usize = self.pos;
        let bytes = vstd::slice::slice_subrange(self.data, start, start + len);
        self.pos = start + len;
        assert(bytes@ =~= old(self)@.subrange(0, len as int));
        assert(self@ =~= old(self)@.subrange(len as int, old(self)@.len() as int));
        Some(bytes)
    }

    /// Reads one byte.
    pub fn read_u8(&mut self) -> (value: Option<u8>)
        ensures
            value is Some == (1 <= old(self)@.len()),
            value matches Some(value) ==> value == old(self)@[0] && final(self)@ == old(
                self,
            )@.subrange(1, old(self)@.len() as int),
            value is None ==> final(self)@ == old(self)@,
    {
        match self.read(1) {
            Some(bytes) => Some(bytes[0]),
            None => None,
        }
    }

    /// Reads a number of four bytes.
    pub fn read_u32(&mut self) -> (value: Option<u32>)
        ensures
            value is Some == (4 <= old(self)@.len()),
            value matches Some(value) ==> value == u32_of(old(self)@.subrange(0, 4))
                && final(self)@ == old(self)@.subrange(4, old(self)@.len() as int),
            value is None ==> final(self)@ == old(self)@,
    {
        match self.read(4) {
            Some(bytes) => Some(
                ((bytes[0] as u32) << 24) | ((bytes[1] as u32) << 16) | ((bytes[2] as u32) << 8) | (
                bytes[3] as u32),
            ),
            None => None,
        }
    }

    /// Reads a number of eight bytes.
    pub fn read_u64(&mut self) -> (value: Option<u64>)
        ensures
            value is Some == (8 <= old(self)@.len()),
            value matches Some(value) ==> value == u64_of(old(self)@.subrange(0, 8))
                && final(self)@ == old(self)@.subrange(8, old(self)@.len() as int),
            value is None ==> final(self)@ == old(self)@,
    {
        match self.read(8) {
            Some(bytes) => {
                let high: u32 = ((bytes[0] as u32) << 24) | ((bytes[1] as u32) << 16) | ((
                bytes[2] as u32) << 8) | (bytes[3] as u32);
                let low: u32 = ((bytes[4] as u32) << 24) | ((bytes[5] as u32) << 16) | ((
                bytes[6] as u32) << 8) | (bytes[7] as u32);
                Some(((high as u64) << 32) | (low as u64))
            },
            None => None,
        }
    }
}

} // verus!

//! The prover's input: a stream of little-endian integers and 32-byte values.

use vstd::prelude::*;

verus! {

/// The four bytes of a `u32`, least significant first.
pub open spec fn u32_le_bytes(x: u32) -> Seq<u8> {
    seq![
        (x % 256) as u8,
        ((x / 0x100) % 256) as u8,
        ((x / 0x1_0000) % 256) as u8,
        ((x / 0x100_0000) % 256) as u8,
    ]
}

/// The number that four bytes hold, least significant first.
pub open spec fn u32_from_le(bytes: Seq<u8>) -> u32 {
    (bytes[0] + 0x100 * bytes[1] + 0x1_0000 * bytes[2] + 0x100_0000 * bytes[3]) as u32
}

/// The four bytes of an `i32` in two's complement, least significant first.
pub open spec fn i32_le_bytes(x: i32) -> Seq<u8> {
    if x >= 0 {
        u32_le_bytes(x as u32)
    } else {
        u32_le_bytes((x + 0x1_0000_0000) as u32)
    }
}

/// The signed number that four bytes hold in two's complement, least
/// significant first.
pub open spec fn i32_from_le(bytes: Seq<u8>) -> i32 {
    let unsigned = u32_from_le(bytes);
    if unsigned < 0x8000_0000 {
        unsigned as i32
    } else {
        (unsigned - 0x1_0000_0000) as i32
    }
}

/// The eight bytes of a `u64`, least significant first.
pub open spec fn u64_le_bytes(x: u64) -> Seq<u8> {
    u32_le_bytes((x % 0x1_0000_0000) as u32) + u32_le_bytes((x / 0x1_0000_0000) as u32)
}

/// Decoding undoes encoding, and encoding undoes decoding.
pub proof fn lemma_u32_le_roundtrip(x: u32, bytes: Seq<u8>)
    requires
        bytes.len() == 4,
    ensures
        u32_from_le(u32_le_bytes(x)) == x,
        u32_le_bytes(u32_from_le(bytes)) == bytes,
        u32_le_bytes(x).len() == 4,
{
    let b0 = bytes[0] as int;
    let b1 = bytes[1] as int;
    let b2 = bytes[2] as int;
    let b3 = bytes[3] as int;
    let v = b0 + 0x100 * b1 + 0x1_0000 * b2 + 0x100_0000 * b3;
    assert(v / 0x100 == b1 + 0x100 * b2 + 0x1_0000 * b3);
    assert(v / 0x1_0000 == b2 + 0x100 * b3);
    assert(v / 0x100_0000 == b3);
    assert(u32_from_le(bytes) == v);
    assert(u32_le_bytes(u32_from_le(bytes)) =~= bytes);
    let c0 = (x % 256) as int;
    let c1 = ((x / 0x100) % 256) as int;
    let c2 = ((x / 0x1_0000) % 256) as int;
    let c3 = ((x / 0x100_0000) % 256) as int;
    assert(x / 0x100_0000 == c3);
    assert(x / 0x1_0000 == c2 + 0x100 * c3);
    assert(x / 0x100 == c1 + 0x100 * (x / 0x1_0000));
    assert(x == c0 + 0x100 * (x / 0x100));
}

/// Decoding undoes encoding for signed numbers too.
pub proof fn lemma_i32_le_roundtrip(x: i32, bytes: Seq<u8>)
    requires
        bytes.len() == 4,
    ensures
        i32_from_le(i32_le_bytes(x)) == x,
        i32_le_bytes(i32_from_le(bytes)) == bytes,
        i32_le_bytes(x).len() == 4,
{
    lemma_u32_le_roundtrip(0, bytes);
    if x >= 0 {
        lemma_u32_le_roundtrip(x as u32, bytes);
    } else {
        lemma_u32_le_roundtrip((x + 0x1_0000_0000) as u32, bytes);
    }
}

/// Appends the little-endian bytes of `x`.
pub fn write_u32_le(buf: &mut Vec<u8>, x: u32)
    ensures
        final(buf)@ == old(buf)@ + u32_le_bytes(x),
{
    buf.push((x % 256) as u8);
    buf.push(((x / 0x100) % 256) as u8);
    buf.push(((x / 0x1_0000) % 256) as u8);
    buf.push(((x / 0x100_0000) % 256) as u8);
    assert(buf@ =~= old(buf)@ + u32_le_bytes(x));
}

/// Appends the little-endian two's-complement bytes of `x`.
pub fn write_i32_le(buf: &mut Vec<u8>, x: i32)
    ensures
        final(buf)@ == old(buf)@ + i32_le_bytes(x),
{
    if x >= 0 {
        write_u32_le(buf, x as u32);
    } else {
        write_u32_le(buf, (x as i64 + 0x1_0000_0000) as u32);
    }
}

/// Appends the little-endian bytes of `x`.
pub fn write_u64_le(buf: &mut Vec<u8>, x: u64)
    ensures
        final(buf)@ == old(buf)@ + u64_le_bytes(x),
{
    write_u32_le(buf, (x % 0x1_0000_0000) as u32);
    write_u32_le(buf, (x / 0x1_0000_0000) as u32);
    assert(buf@ =~= old(buf)@ + u64_le_bytes(x));
}

/// What a read of `n` bytes does to the stream: it succeeds exactly when `n`
/// bytes are left, and then takes them off the front; a failed read takes
/// nothing.
pub open spec fn consumes(before: Seq<u8>, after: Seq<u8>, n: nat, success: bool) -> bool {
    &&& success == (before.len() >= n)
    &&& after == if success {
        before.skip(n as int)
    } else {
        before
    }
}

/// The input tape of the bridge prover. A reader hands out the values of the
/// stream in order; `unread` is what it has not handed out yet.
pub trait Environment {
    /// The bytes not yet read.
    spec fn unread(&self) -> Seq<u8>;

    /// Reads an unsigned 32-bit integer, little-endian.
    fn read_u32(&mut self) -> (r: Option<u32>)
        ensures
            consumes(old(self).unread(), final(self).unread(), 4, r is Some),
            r matches Some(x) ==> x == u32_from_le(old(self).unread().take(4)),
    ;

    /// Reads a signed 32-bit integer, little-endian two's complement.
    fn read_i32(&mut self) -> (r: Option<i32>)
        ensures
            consumes(old(self).unread(), final(self).unread(), 4, r is Some),
            r matches Some(x) ==> x == i32_from_le(old(self).unread().take(4)),
    ;

    /// Reads 32 raw bytes.
    fn read_32bytes(&mut self) -> (r: Option<[u8; 32]>)
        ensures
            consumes(old(self).unread(), final(self).unread(), 32, r is Some),
            r matches Some(bytes) ==> bytes@ == old(self).unread().take(32),
    ;
}

/// A reader over a buffer held in memory.
pub struct BufferedEnvironment {
    data: Vec<u8>,
    position: usize,
}

impl BufferedEnvironment {
    #[verifier::type_invariant]
    spec fn position_in_buffer(&self) -> bool {
        self.position <= self.data@.len()
    }

    /// A reader that stands at the start of `data`.
    pub fn new(data: Vec<u8>) -> (env: BufferedEnvironment)
        ensures
            env.unread() == data@,
    {
        let env = BufferedEnvironment { data, position: 0 };
        assert(env.data@.skip(0) == env.data@);
        env
    }

    /// The number of bytes not yet read.
    pub fn remaining(&self) -> (n: usize)
        ensures
            n == self.unread().len(),
    {
        proof {
            use_type_invariant(self);
        }
        self.data.len() - self.position
    }
}

impl Environment for BufferedEnvironment {
    closed spec fn unread(&self) -> Seq<u8> {
        self.data@.skip(self.position as int)
    }

    fn read_u32(&mut self) -> (r: Option<u32>) {
        proof {
            use_type_invariant(&*self);
        }
        if self.data.len() - self.position < 4 {
            return None;
        }
        let p = self.position;
        let ghost rest = self.unread();
        assert(rest.take(4) =~= seq![
            self.data@[p as int],
            self.data@[p + 1],
            self.data@[p + 2],
            self.data@[p + 3],
        ]);
        let x = (self.data[p] as u32) + 0x100 * (self.data[p + 1] as u32) + 0x1_0000 * (self.data[p
            + 2] as u32) + 0x100_0000 * (self.data[p + 3] as u32);
        self.position = p + 4;
        assert(self.unread() =~= rest.skip(4));
        Some(x)
    }

    fn read_i32(&mut self) -> (r: Option<i32>) {
        match self.read_u32() {
            None => None,
            Some(unsigned) => {
                if unsigned < 0x8000_0000 {
                    Some(unsigned as i32)
                } else {
                    Some((unsigned as i64 - 0x1_0000_0000) as i32)
                }
            },
        }
    }

    fn read_32bytes(&mut self) -> (r: Option<[u8; 32]>) {
        proof {
            use_type_invariant(&*self);
        }
        if self.data.len() - self.position < 32 {
            return None;
        }
        let p = self.position;
        let len = self.data.len();
        let ghost rest = self.unread();
        let mut bytes = [0u8; 32];
        let mut i: usize = 0;
        while i < 32
            invariant
                i <= 32,
                p + 32 <= len,
                len == self.data@.len(),
                forall|j: int| 0 <= j < i ==> bytes@[j] == self.data@[p + j],
            decreases 32 - i,
        {
            bytes[i] = self.data[p + i];
            i = i + 1;
        }
        self.position = p + 32;
        assert(bytes@ =~= rest.take(32));
        assert(self.unread() =~= rest.skip(32));
        Some(bytes)
    }
}

} // verus!

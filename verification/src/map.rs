//! Removing keys from a map of the database.
//!
//! A key is given by the bytes that it serializes to. They are written to a buffer, and what the
//! buffer holds then is the key that the map is to remove.

use vstd::prelude::*;

verus! {

/// What bytes can be written to, and what was written can be read from.
pub trait Buffer: Sized {
    /// The bytes that were written.
    spec fn contents(&self) -> Seq<u8>;

    /// `len` bytes can stand in such a buffer.
    spec fn fits(len: nat) -> bool;

    /// Whether all of `data` fits behind what the buffer holds.
    fn has_room_for(&self, data: &[u8]) -> (r: bool)
        ensures
            r == Self::fits(self.contents().len() + data@.len()),
    ;

    /// Writes all of `data` behind what the buffer holds; returns whether all of it fits. Where it
    /// does not, what fits is written.
    fn write_all(&mut self, data: &[u8]) -> (r: bool)
        ensures
            r == Self::fits(old(self).contents().len() + data@.len()),
            r ==> final(self).contents() == old(self).contents() + data@,
            !r ==> exists|n: int|
                {
                    &&& 0 <= n < data@.len()
                    &&& final(self).contents() == old(self).contents() + #[trigger] data@.take(n)
                    &&& Self::fits((old(self).contents().len() + n) as nat)
                    &&& !Self::fits((old(self).contents().len() + n + 1) as nat)
                },
    ;

    /// The bytes that were written.
    fn as_bytes(&self) -> (r: &[u8])
        ensures
            r@ == self.contents(),
    ;
}

/// A buffer that grows with what is written.
pub struct KeyBuf {
    bytes: Vec<u8>,
}

impl KeyBuf {
    /// Nothing written.
    pub fn new() -> (r: KeyBuf)
        ensures
            r.contents() == Seq::<u8>::empty(),
    {
        KeyBuf { bytes: Vec::new() }
    }
}

impl Buffer for KeyBuf {
    closed spec fn contents(&self) -> Seq<u8> {
        self.bytes@
    }

    open spec fn fits(len: nat) -> bool {
        true
    }

    fn has_room_for(&self, data: &[u8]) -> (r: bool) {
        true
    }

    fn write_all(&mut self, data: &[u8]) -> (r: bool) {
        self.bytes.extend_from_slice(data);
        assert(self.bytes@ =~= old(self).bytes@ + data@);
        true
    }

    fn as_bytes(&self) -> (r: &[u8]) {
        self.bytes.as_slice()
    }
}

/// Calls `write` of `std::io::Write` on an `arrayvec::ArrayVec` of the capacity `MAX` that holds
/// `held`; hands back what it holds then and how many bytes were written.
///
/// Claimed of it: as many bytes of `data` as there is room for are written behind what is held, and
/// the call does not fail. A capacity above `u32::MAX` is left out: `ArrayVec` panics at it.
#[verifier::external_body]
fn write_array<const MAX: usize>(held: &[u8], data: &[u8]) -> (r: (Vec<u8>, usize))
    requires
        held@.len() <= MAX <= u32::MAX,
    ensures
        r.1 == if held@.len() + data@.len() <= MAX {
            data@.len() as int
        } else {
            MAX - held@.len()
        },
        r.0@ == held@ + data@.take(r.1 as int),
{
    let mut array = arrayvec::ArrayVec::<u8, MAX>::try_from(held).unwrap();
    let written = std::io::Write::write(&mut array, data).unwrap();
    (array.to_vec(), written)
}

/// What an `arrayvec::ArrayVec` of the capacity `MAX` holds.
pub struct ArrayBuf<const MAX: usize> {
    bytes: Vec<u8>,
}

impl<const MAX: usize> ArrayBuf<MAX> {
    /// No more than `MAX` bytes were written.
    #[verifier::type_invariant]
    spec fn inv(self) -> bool {
        self.bytes@.len() <= MAX <= u32::MAX
    }

    /// Nothing written.
    pub fn new() -> (r: ArrayBuf<MAX>)
        requires
            MAX <= u32::MAX,
        ensures
            r.contents() == Seq::<u8>::empty(),
    {
        ArrayBuf { bytes: Vec::new() }
    }
}

impl<const MAX: usize> Buffer for ArrayBuf<MAX> {
    closed spec fn contents(&self) -> Seq<u8> {
        self.bytes@
    }

    open spec fn fits(len: nat) -> bool {
        len <= MAX
    }

    fn has_room_for(&self, data: &[u8]) -> (r: bool) {
        proof {
            use_type_invariant(self);
        }
        data.len() <= MAX - self.bytes.len()
    }

    fn write_all(&mut self, data: &[u8]) -> (r: bool) {
        proof {
            use_type_invariant(&*self);
        }
        let (bytes, written) = write_array::<MAX>(self.bytes.as_slice(), data);
        self.bytes = bytes;
        assert(data@.take(data@.len() as int) =~= data@);
        written == data.len()
    }

    fn as_bytes(&self) -> (r: &[u8]) {
        self.bytes.as_slice()
    }
}

/// The key that is removed where `key` is written to a buffer that holds `before`.
pub open spec fn deletion_key(before: Seq<u8>, key: Seq<u8>) -> Seq<u8> {
    before + key
}

/// Writes `key` to `buf` and returns the key to be removed: all that `buf` holds then.
pub fn bdel<'a, B: Buffer>(key: &[u8], buf: &'a mut B) -> (r: &'a [u8])
    requires
        B::fits(old(buf).contents().len() + key@.len()),
    ensures
        r@ == deletion_key(old(buf).contents(), key@),
        r@ == old(buf).contents() + key@,
        final(buf).contents() == r@,
{
    buf.write_all(key);
    buf.as_bytes()
}

/// The bytes of `bytes` in a vector of their own.
fn owned(bytes: &[u8]) -> (r: Vec<u8>)
    ensures
        r@ == bytes@,
{
    let mut r: Vec<u8> = Vec::new();
    r.extend_from_slice(bytes);
    assert(r@ =~= bytes@);
    r
}

/// The key to be removed for `key`, by way of a buffer that grows.
pub fn del(key: &[u8]) -> (r: Vec<u8>)
    ensures
        r@ == key@,
{
    let mut buf = KeyBuf::new();
    owned(bdel(key, &mut buf))
}

/// The key to be removed for `key`, by way of a buffer of `MAX` bytes.
pub fn adel<const MAX: usize>(key: &[u8]) -> (r: Vec<u8>)
    requires
        key@.len() <= MAX <= u32::MAX,
    ensures
        r@ == key@,
{
    let mut buf = ArrayBuf::<MAX>::new();
    owned(bdel(key, &mut buf))
}

/// What is removed begins with what the buffer held and ends with the key, and nothing stands between
/// them: from an empty buffer the key itself is removed, whatever kind of buffer it is, and two keys
/// written to buffers that held the same are removed as the same only where they are the same.
pub proof fn deletion_key_tells_keys_apart(before: Seq<u8>, key: Seq<u8>, other: Seq<u8>)
    ensures
        deletion_key(before, key).len() == before.len() + key.len(),
        deletion_key(before, key).take(before.len() as int) == before,
        deletion_key(before, key).skip(before.len() as int) == key,
        deletion_key(seq![], key) == key,
        deletion_key(before, key) == deletion_key(before, other) ==> key == other,
{
    assert(deletion_key(before, key).take(before.len() as int) =~= before);
    assert(deletion_key(before, key).skip(before.len() as int) =~= key);
    assert(deletion_key(before, other).skip(before.len() as int) =~= other);
    assert(deletion_key(seq![], key) =~= key);
}

} // verus!

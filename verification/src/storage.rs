//! Byte-addressable storage as seen by the exchange engines: a flat array
//! of bytes that can be read and written at page granularity.  The physical
//! driver is supplied by the user of the crate; an in-memory implementation
//! is provided for hosted use and testing.

use vstd::prelude::*;
use vstd::pervasive::VecAdditionalExecFns;
use crate::Never;

verus! {

/// The sequence `mem` with the bytes starting at `offset` replaced by
/// `data`.
pub open spec fn write_region(mem: Seq<u8>, offset: int, data: Seq<u8>) -> Seq<u8>
    recommends
        0 <= offset,
        offset + data.len() <= mem.len(),
{
    mem.take(offset) + data + mem.skip(offset + data.len())
}

/// Abstraction of the device's byte-addressable storage.  The spec function
/// `mem` exposes the current contents of the whole unit; reads and writes
/// act on it at arbitrary offsets.  A failed write may leave the written
/// range in an arbitrary state but never changes the size of the unit.
pub trait Storage {
    /// The driver's own error type.
    type Error;

    /// The current contents of the storage unit.
    spec fn mem(&self) -> Seq<u8>;

    /// The number of addressable bytes.
    fn capacity(&self) -> (r: usize)
        ensures
            r == self.mem().len(),
    ;

    /// Fill `buf` with the bytes starting at `offset`.
    fn read(&mut self, offset: u32, buf: &mut Vec<u8>) -> (r: Result<(), Self::Error>)
        requires
            offset + old(buf)@.len() <= old(self).mem().len(),
        ensures
            final(self).mem() == old(self).mem(),
            final(buf)@.len() == old(buf)@.len(),
            (r matches Ok(u) ==> final(buf)@ == old(self).mem().subrange(
                offset as int,
                offset + old(buf)@.len(),
            )),
    ;

    /// Store `buf` at `offset`.  Even a failed write is confined to the
    /// addressed range: it may leave those bytes in an arbitrary state but
    /// touches nothing else.
    fn write(&mut self, offset: u32, buf: &Vec<u8>) -> (r: Result<(), Self::Error>)
        requires
            offset + buf@.len() <= old(self).mem().len(),
        ensures
            final(self).mem().len() == old(self).mem().len(),
            (forall|j: int|
                0 <= j < old(self).mem().len() && !(offset <= j < offset + buf@.len()) ==> (
                #[trigger] final(self).mem()[j]) == old(self).mem()[j]),
            (r matches Ok(u) ==> final(self).mem() == write_region(
                old(self).mem(),
                offset as int,
                buf@,
            )),
    ;
}

/// Storage held in ordinary memory: a faithful stand-in for internal flash
/// on hosted builds and in tests.
pub struct VecStorage {
    /// The stored bytes.
    pub bytes: Vec<u8>,
}

impl VecStorage {
    /// A unit of `size` bytes, each holding `fill`.
    pub fn new_filled(size: usize, fill: u8) -> (r: VecStorage)
        ensures
            r.bytes@.len() == size,
            forall|i: int| 0 <= i < size ==> r.bytes@[i] == fill,
    {
        VecStorage { bytes: vec![fill; size] }
    }
}

impl Storage for VecStorage {
    type Error = Never;

    open spec fn mem(&self) -> Seq<u8> {
        self.bytes@
    }

    fn capacity(&self) -> (r: usize) {
        self.bytes.len()
    }

    fn read(&mut self, offset: u32, buf: &mut Vec<u8>) -> (r: Result<(), Never>)
        ensures
            r is Ok,
    {
        let n = buf.len();
        let base = offset as usize;
        let _total: usize = self.bytes.len();
        let mut i: usize = 0;
        while i < n
            invariant
                i <= n,
                n == old(buf)@.len(),
                base == offset as int,
                base + n <= self.bytes@.len(),
                self.bytes@.len() <= usize::MAX,
                self == old(self),
                buf@.len() == n,
                forall|j: int| 0 <= j < i ==> buf@[j] == self.bytes@[base + j],
            decreases n - i,
        {
            let v = self.bytes[base + i];
            buf.set(i, v);
            i = i + 1;
        }
        proof {
            assert(buf@ =~= self.bytes@.subrange(offset as int, offset + old(buf)@.len()));
        }
        Ok(())
    }

    fn write(&mut self, offset: u32, buf: &Vec<u8>) -> (r: Result<(), Never>)
        ensures
            r is Ok,
    {
        let n = buf.len();
        let base = offset as usize;
        let _total: usize = self.bytes.len();
        let mut i: usize = 0;
        while i < n
            invariant
                i <= n,
                n == buf@.len(),
                base == offset as int,
                base + n <= self.bytes@.len(),
                self.bytes@.len() <= usize::MAX,
                self.bytes@.len() == old(self).bytes@.len(),
                forall|j: int| 0 <= j < i ==> self.bytes@[base + j] == buf@[j],
                forall|j: int|
                    0 <= j < self.bytes@.len() && !(base <= j < base + i) ==> self.bytes@[j] == old(
                        self,
                    ).bytes@[j],
            decreases n - i,
        {
            self.bytes.set(base + i, buf[i]);
            i = i + 1;
        }
        proof {
            assert(self.bytes@ =~= write_region(old(self).bytes@, offset as int, buf@));
        }
        Ok(())
    }
}

} // verus!

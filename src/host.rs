use vstd::prelude::*;

use crate::error::IOError;

verus! {

/// The bytes of `data` after writing `buf` at `off`; a write past the end extends the file,
/// and a gap before `off` reads as zeros.
pub open spec fn written(data: Seq<u8>, off: int, buf: Seq<u8>) -> Seq<u8> {
    let n = if data.len() > off + buf.len() { data.len() as int } else { off + buf.len() };
    Seq::new(
        n as nat,
        |i: int|
            if off <= i < off + buf.len() {
                buf[i - off]
            } else if i < data.len() {
                data[i]
            } else {
                0u8
            },
    )
}

/// A positional read of `len` bytes at `off` succeeds exactly when they lie inside the file.
pub open spec fn read_ok(data: Seq<u8>, off: int, len: int) -> bool {
    0 <= off && 0 <= len && off + len <= data.len()
}

/// A positional write succeeds exactly when the end of the written range is addressable.
pub open spec fn write_ok(off: int, len: int) -> bool {
    off + len <= usize::MAX
}

/// The host file that holds an image (or its backing image): a sequence of bytes addressed
/// by position, read and written with blocking positional I/O.
pub struct HostFile {
    data: Vec<u8>,
}

impl View for HostFile {
    type V = Seq<u8>;

    closed spec fn view(&self) -> Seq<u8> {
        self.data@
    }
}

impl HostFile {
    /// A host file holding `data`.
    pub fn new(data: Vec<u8>) -> (r: HostFile)
        ensures
            r@ == data@,
    {
        HostFile { data }
    }

    /// The length of the file in bytes.
    pub fn len(&self) -> (r: usize)
        ensures
            r == self@.len(),
    {
        self.data.len()
    }

    /// The bytes of the file.
    pub fn as_bytes(&self) -> (r: &[u8])
        ensures
            r@ == self@,
    {
        self.data.as_slice()
    }

    /// The bytes of the file.
    pub fn into_bytes(self) -> (r: Vec<u8>)
        ensures
            r@ == self@,
    {
        self.data
    }

    /// Reads `len` bytes at `offset`; fails when the range passes the end of the file.
    pub fn pread(&self, offset: u64, len: usize) -> (r: Result<Vec<u8>, IOError>)
        ensures
            read_ok(self@, offset as int, len as int) <==> r.is_ok(),
            r matches Ok(v) ==> v@ == self@.subrange(offset as int, offset + len),
            r matches Err(e) ==> e == IOError::GenericError,
    {
        let n = self.data.len();
        if offset > n as u64 || len > n - offset as usize {
            return Err(IOError::GenericError);
        }
        let start = offset as usize;
        let mut out: Vec<u8> = Vec::with_capacity(len);
        let mut i: usize = 0;
        while i < len
            invariant
                start + len <= n,
                n == self.data@.len(),
                i <= len,
                out@ == self@.subrange(start as int, start + i),
            decreases len - i,
        {
            out.push(self.data[start + i]);
            i = i + 1;
            assert(out@ =~= self@.subrange(start as int, start + i));
        }
        Ok(out)
    }

    /// Reads the big-endian 64-bit integer at `offset`.
    pub fn pread_be_u64(&self, offset: u64) -> (r: Result<u64, IOError>)
        ensures
            read_ok(self@, offset as int, 8) <==> r.is_ok(),
            r matches Ok(v) ==> v == crate::bytes::be_u64_at(self@, offset as int),
            r matches Err(e) ==> e == IOError::GenericError,
    {
        let n = self.data.len();
        if offset > n as u64 || 8 > n - offset as usize {
            return Err(IOError::GenericError);
        }
        Ok(crate::bytes::read_be_u64(self.data.as_slice(), offset as usize))
    }

    /// Writes `buf` at `offset`, extending the file where the range passes its end; fails
    /// when the end of the range is not addressable.
    pub fn pwrite(&mut self, offset: u64, buf: &[u8]) -> (r: Result<(), IOError>)
        ensures
            write_ok(offset as int, buf@.len() as int) <==> r.is_ok(),
            r.is_ok() ==> final(self)@ == written(old(self)@, offset as int, buf@),
            r.is_err() ==> final(self)@ == old(self)@,
            r matches Err(e) ==> e == IOError::GenericError,
    {
        let blen = buf.len();
        if offset > usize::MAX as u64 || blen > usize::MAX - offset as usize {
            return Err(IOError::GenericError);
        }
        let start = offset as usize;
        let end = start + blen;
        let ghost old_data = self.data@;
        while self.data.len() < end
            invariant
                end == start + blen,
                old_data.len() <= self.data@.len() <= if old_data.len() > end { old_data.len() as int } else { end as int },
                forall|i: int| 0 <= i < old_data.len() ==> self.data@[i] == old_data[i],
                forall|i: int| old_data.len() <= i < self.data@.len() ==> self.data@[i] == 0u8,
            decreases end - self.data.len(),
        {
            self.data.push(0u8);
        }
        let mut i: usize = 0;
        while i < blen
            invariant
                end == start + blen,
                blen == buf@.len(),
                self.data@.len() == if old_data.len() > end { old_data.len() as int } else { end as int },
                i <= blen,
                forall|j: int| 0 <= j < self.data@.len() ==> self.data@[j] == (
                    if start <= j < start + i { buf@[j - start] }
                    else if j < old_data.len() { old_data[j] }
                    else { 0u8 }),
            decreases blen - i,
        {
            self.data.set(start + i, buf[i]);
            i = i + 1;
        }
        assert(self.data@ =~= written(old_data, offset as int, buf@));
        Ok(())
    }
}

} // verus!

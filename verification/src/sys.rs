use vstd::prelude::*;
use syscalls::Errno;
use crate::cstr::CStr;

verus! {

/// The error of a failed system call, as the `syscalls` crate reports it.
#[verifier::external_type_specification]
#[verifier::external_body]
pub struct ExErrno(Errno);

/// The `dirfd` that `openat` takes to mean the current working directory.
pub const AT_FDCWD: i32 = -100;

/// An open file descriptor, closed when it is no longer needed.
pub struct OwnedFd(pub i32);

/// The arguments of an `openat` system call.
#[derive(Clone, Copy, PartialEq, Eq, Structural, Debug)]
pub struct OpenAt {
    pub dirfd: i32,
    pub path: usize,
    pub flags: i32,
    pub mode: i32,
}

impl OwnedFd {
    /// The arguments with which to open `path` relative to `dirfd`, or to the
    /// current working directory when there is none.
    pub fn openat(dirfd: Option<&OwnedFd>, path: &CStr, flags: i32, mode: i32) -> (res: OpenAt)
        ensures
            res.dirfd == match dirfd {
                Some(fd) => fd.0,
                None => AT_FDCWD,
            },
            res.path == path.addr,
            res.flags == flags,
            res.mode == mode,
    {
        let d = match dirfd {
            Some(fd) => fd.0,
            None => AT_FDCWD,
        };
        OpenAt { dirfd: d, path: path.addr, flags, mode }
    }

    /// The descriptor that an `openat` system call returned, or its error.
    pub fn opened(ret: Result<usize, Errno>) -> (res: Result<OwnedFd, Errno>)
        ensures
            match ret {
                Ok(v) => res matches Ok(fd) && fd.0 == v as i32,
                Err(e) => res matches Err(e2) && e2 == e,
            },
    {
        match ret {
            Ok(v) => Ok(OwnedFd(v as i32)),
            Err(e) => Err(e),
        }
    }

    /// Starts writing all of `a` to this descriptor: the writes that the
    /// returned `WriteAll` asks for are of the rest of `a`, from its offset.
    pub fn write_all(&self, a: &[u8]) -> (res: WriteAll)
        ensures
            res.fd == self.0,
            res.total == a@.len(),
            res.offset == 0,
            res.error is None,
    {
        WriteAll { fd: self.0, total: a.len(), offset: 0, error: None }
    }

    /// Takes the outcome of a `read` system call into the free part of `buf`:
    /// on success `data` holds the bytes the kernel wrote there, which are
    /// added to the filled part; on failure `buf` is left as it was.
    pub fn read_buf(&self, buf: &mut BorrowedBuf, data: Result<&[u8], Errno>) -> (res: Result<usize, Errno>)
        requires
            data matches Ok(d) ==> d@.len() <= old(buf).capacity() - old(buf).filled_bytes().len(),
        ensures
            match data {
                Ok(d) => res == Ok::<usize, Errno>(d@.len() as usize)
                    && final(buf).filled_bytes() == old(buf).filled_bytes() + d@
                    && final(buf).capacity() == old(buf).capacity(),
                Err(e) => res == Err::<usize, Errno>(e) && *final(buf) == *old(buf),
            },
    {
        match data {
            Ok(d) => {
                buf.commit(d);
                Ok(d.len())
            },
            Err(e) => Err(e),
        }
    }
}

/// The next thing to do while writing a whole buffer.
#[derive(Clone, Copy)]
pub enum WriteStep {
    /// Write the buffer's bytes from `offset` on to `fd`.
    Write { fd: i32, offset: usize },
    /// The buffer has been written, or a write failed.
    Done(Result<(), Errno>),
}

/// Progress of writing a whole buffer of `total` bytes to `fd`: the bytes
/// before `offset` have been written; `error` is the error of a failed write.
pub struct WriteAll {
    pub fd: i32,
    pub total: usize,
    pub offset: usize,
    pub error: Option<Errno>,
}

impl WriteAll {
    pub open spec fn wf(&self) -> bool {
        self.offset <= self.total
    }

    /// What to do next: write the rest of the buffer while some is left and
    /// no write failed.
    pub fn next(&self) -> (res: WriteStep)
        requires
            self.wf(),
        ensures
            match self.error {
                Some(e) => res == WriteStep::Done(Err(e)),
                None => if self.offset == self.total {
                    res == WriteStep::Done(Ok(()))
                } else {
                    res == (WriteStep::Write { fd: self.fd, offset: self.offset })
                },
            },
    {
        match self.error {
            Some(e) => WriteStep::Done(Err(e)),
            None => if self.offset == self.total {
                WriteStep::Done(Ok(()))
            } else {
                WriteStep::Write { fd: self.fd, offset: self.offset }
            },
        }
    }

    /// Takes the outcome of the write that `next` asked for: on success the
    /// written bytes are skipped, on failure the error ends the writing.
    pub fn written(&mut self, ret: Result<usize, Errno>)
        requires
            old(self).wf(),
            old(self).error is None,
            old(self).offset < old(self).total,
            ret matches Ok(n) ==> n <= old(self).total - old(self).offset,
        ensures
            final(self).wf(),
            final(self).fd == old(self).fd,
            final(self).total == old(self).total,
            match ret {
                Ok(n) => final(self).offset == old(self).offset + n && final(self).error is None,
                Err(e) => final(self).offset == old(self).offset && final(self).error == Some(e),
            },
    {
        match ret {
            Ok(n) => {
                self.offset = self.offset + n;
            },
            Err(e) => {
                self.error = Some(e);
            },
        }
    }
}

/// A buffer that is filled from its start: `buf` is its storage and the first
/// `filled` bytes of it hold data.
pub struct BorrowedBuf {
    buf: Vec<u8>,
    filled: usize,
}

impl BorrowedBuf {
    #[verifier::type_invariant]
    spec fn inv(&self) -> bool {
        self.filled <= self.buf@.len()
    }

    /// The bytes that have been filled in.
    pub closed spec fn filled_bytes(&self) -> Seq<u8> {
        self.buf@.subrange(0, self.filled as int)
    }

    /// The size of the storage.
    pub closed spec fn capacity(&self) -> nat {
        self.buf@.len()
    }

    /// A buffer over the storage `buf`, with nothing filled in.
    pub fn new(buf: Vec<u8>) -> (res: BorrowedBuf)
        ensures
            res.filled_bytes() == Seq::<u8>::empty(),
            res.capacity() == buf@.len(),
    {
        BorrowedBuf { buf, filled: 0 }
    }

    /// The bytes that have been filled in.
    pub fn filled(&self) -> (res: &[u8])
        ensures
            res@ == self.filled_bytes(),
    {
        proof {
            use_type_invariant(self);
        }
        vstd::slice::slice_subrange(self.buf.as_slice(), 0, self.filled)
    }

    /// The number of bytes that can still be filled in.
    pub fn free(&self) -> (res: usize)
        ensures
            res == self.capacity() - self.filled_bytes().len(),
    {
        proof {
            use_type_invariant(self);
        }
        self.buf.len() - self.filled
    }

    /// Appends `data` to the filled bytes, in the free part of the storage.
    pub fn commit(&mut self, data: &[u8])
        requires
            data@.len() <= old(self).capacity() - old(self).filled_bytes().len(),
        ensures
            final(self).filled_bytes() == old(self).filled_bytes() + data@,
            final(self).capacity() == old(self).capacity(),
    {
        proof {
            use_type_invariant(&*self);
        }
        let ghost before = self.buf@;
        let start = self.filled;
        let mut storage: Vec<u8> = Vec::new();
        self.filled = 0;
        std::mem::swap(&mut storage, &mut self.buf);
        let _n = storage.len();
        let mut i: usize = 0;
        while i < data.len()
            invariant
                before.len() <= usize::MAX,
                storage@.len() == before.len(),
                start + data@.len() <= before.len(),
                i <= data@.len(),
                forall|k: int| 0 <= k < start ==> storage@[k] == before[k],
                forall|k: int| 0 <= k < i ==> storage@[start + k] == data@[k],
            decreases data@.len() - i,
        {
            storage.set(start + i, data[i]);
            i = i + 1;
        }
        self.buf = storage;
        self.filled = start + data.len();
        assert(self.filled_bytes() =~= old(self).filled_bytes() + data@);
    }
}

/// The exit status with which a utility reports the outcome of its last
/// system call: 0 on success, 1 on failure.
pub fn status(result: &Result<(), Errno>) -> (res: u8)
    ensures
        res == if result is Ok { 0u8 } else { 1u8 },
{
    match result {
        Ok(_) => 0,
        Err(_) => 1,
    }
}

/// The arguments of a `nanosleep` system call.
#[derive(Clone, Copy, PartialEq, Eq, Structural, Debug)]
pub struct Timespec {
    pub tv_sec: u64,
    pub tv_nsec: i32,
}

/// The request for a sleep of `seconds` and `nanos`; the nanoseconds are
/// passed on as a C `int`.
pub fn timespec(seconds: u64, nanos: u32) -> (res: Timespec)
    ensures
        res.tv_sec == seconds,
        res.tv_nsec == nanos as i32,
{
    Timespec { tv_sec: seconds, tv_nsec: nanos as i32 }
}

} // verus!

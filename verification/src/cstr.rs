use vstd::prelude::*;

verus! {

/// Number of bytes from index `i` of `m` up to (not including) the first NUL
/// byte, or up to the end of `m` when there is none.
pub open spec fn nul_run(m: Seq<u8>, i: int) -> nat
    decreases m.len() - i,
{
    if 0 <= i < m.len() && m[i] != 0 {
        1 + nul_run(m, i + 1)
    } else {
        0
    }
}

/// A NUL byte ends the string that starts at index `i` of `m`.
pub open spec fn c_terminated(m: Seq<u8>, i: int) -> bool {
    0 <= i && i + nul_run(m, i) < m.len()
}

/// The bytes of the C string that starts at index `i` of `m`, without its NUL.
pub open spec fn c_string(m: Seq<u8>, i: int) -> Seq<u8> {
    m.subrange(i, i + nul_run(m, i))
}

pub proof fn lemma_nul_run(m: Seq<u8>, i: int)
    requires
        0 <= i,
    ensures
        forall|k: int| i <= k < i + nul_run(m, i) ==> 0 <= k < m.len() && m[k] != 0,
        i + nul_run(m, i) < m.len() ==> m[i + nul_run(m, i)] == 0,
        i + nul_run(m, i) <= m.len() || nul_run(m, i) == 0,
    decreases m.len() - i,
{
    if 0 <= i < m.len() && m[i] != 0 {
        lemma_nul_run(m, i + 1);
    }
}

/// A NUL-terminated string in the argument area of a process, given by its
/// address; `mem` is that area and `base` the address of its first byte.
#[derive(Clone, Copy)]
pub struct CStr<'a> {
    pub addr: usize,
    pub mem: &'a [u8],
    pub base: usize,
}

impl<'a> CStr<'a> {
    /// Index of the string's first byte in `mem`.
    pub open spec fn offset(&self) -> int {
        self.addr - self.base
    }

    /// The string lies in `mem` and ends there with a NUL byte.
    pub open spec fn valid(&self) -> bool {
        self.base <= self.addr && c_terminated(self.mem@, self.offset())
    }

    /// The string's bytes, without the NUL.
    pub open spec fn contents(&self) -> Seq<u8> {
        c_string(self.mem@, self.offset())
    }

    /// The bytes of the string up to its terminating NUL, each of them nonzero.
    pub fn bytes(&self) -> (res: Vec<u8>)
        requires
            self.valid(),
        ensures
            res@ == self.contents(),
            forall|k: int| 0 <= k < res@.len() ==> res@[k] != 0,
    {
        let ghost m = self.mem@;
        let ghost start = self.offset();
        proof {
            lemma_nul_run(m, start);
        }
        let mut i: usize = self.addr - self.base;
        let mut out: Vec<u8> = Vec::new();
        while self.mem[i] != 0
            invariant
                start <= i <= start + nul_run(m, start),
                start + nul_run(m, start) < m.len(),
                m == self.mem@,
                out@ == m.subrange(start, i as int),
                forall|k: int| start <= k < start + nul_run(m, start) ==> m[k] != 0,
                m[start + nul_run(m, start)] == 0,
            decreases start + nul_run(m, start) - i,
        {
            out.push(self.mem[i]);
            i = i + 1;
        }
        assert(i == start + nul_run(m, start));
        out
    }
}

} // verus!

use vstd::prelude::*;
use crate::cstr::{CStr, c_string, c_terminated, nul_run};

verus! {

/// Key of the auxiliary vector entry that holds the program's entry point.
pub const AT_ENTRY: usize = 0x09;

/// Key of the auxiliary vector entry that holds the address of the executed
/// file's name.
pub const AT_EXECFN: usize = 0x1f;

/// Number of nonzero words from index `i` of `s` before the first zero word
/// (or before the end of `s`).
pub open spec fn zero_run(s: Seq<usize>, i: int) -> nat
    decreases s.len() - i,
{
    if 0 <= i < s.len() && s[i] != 0 {
        1 + zero_run(s, i + 1)
    } else {
        0
    }
}

/// A zero word ends the list of words that starts at index `i` of `s`.
pub open spec fn terminated(s: Seq<usize>, i: int) -> bool {
    0 <= i && i + zero_run(s, i) < s.len()
}

/// Number of (key, value) pairs of the auxiliary vector that starts at index
/// `i` of `s`, before the pair whose key is zero.
pub open spec fn aux_count(s: Seq<usize>, i: int) -> nat
    decreases s.len() - i,
{
    if 0 <= i && i + 1 < s.len() && s[i] != 0 {
        1 + aux_count(s, i + 2)
    } else {
        0
    }
}

/// The auxiliary vector at index `i` of `s` ends, inside `s`, with a zero key.
pub open spec fn aux_terminated(s: Seq<usize>, i: int) -> bool {
    0 <= i && i + 2 * aux_count(s, i) < s.len() && s[i + 2 * aux_count(s, i)] == 0
}

/// The (key, value) pairs of the auxiliary vector at index `i` of `s`.
pub open spec fn aux_pairs(s: Seq<usize>, i: int) -> Seq<(usize, usize)> {
    Seq::new(aux_count(s, i), |p: int| (s[i + 2 * p], s[i + 2 * p + 1]))
}

/// The value of the first pair of `pairs`, from position `p` on, whose key is `key`.
pub open spec fn lookup_from(pairs: Seq<(usize, usize)>, key: usize, p: int) -> Option<usize>
    decreases pairs.len() - p,
{
    if p < 0 || p >= pairs.len() {
        None
    } else if pairs[p].0 == key {
        Some(pairs[p].1)
    } else {
        lookup_from(pairs, key, p + 1)
    }
}

/// The value of the first pair of `pairs` whose key is `key`.
pub open spec fn lookup(pairs: Seq<(usize, usize)>, key: usize) -> Option<usize> {
    lookup_from(pairs, key, 0)
}

pub proof fn lemma_zero_run(s: Seq<usize>, i: int)
    requires
        0 <= i,
    ensures
        forall|k: int| i <= k < i + zero_run(s, i) ==> 0 <= k < s.len() && s[k] != 0,
        i + zero_run(s, i) < s.len() ==> s[i + zero_run(s, i)] == 0,
        i + zero_run(s, i) <= s.len() || zero_run(s, i) == 0,
    decreases s.len() - i,
{
    if 0 <= i < s.len() && s[i] != 0 {
        lemma_zero_run(s, i + 1);
        assert forall|k: int| i <= k < i + zero_run(s, i) implies 0 <= k < s.len() && s[k] != 0 by {
            if k > i {
                assert(i + 1 <= k < i + 1 + zero_run(s, i + 1));
            }
        }
    }
}

/// The pair at position `p` of the auxiliary vector at index `i` of `s` lies
/// inside `s` and has a nonzero key.
pub open spec fn pair_in(s: Seq<usize>, i: int, p: int) -> bool {
    i + 2 * p + 1 < s.len() && s[i + 2 * p] != 0
}

pub proof fn lemma_aux_count(s: Seq<usize>, i: int)
    requires
        0 <= i,
    ensures
        forall|p: int| 0 <= p < aux_count(s, i) ==> #[trigger] pair_in(s, i, p),
    decreases s.len() - i,
{
    if 0 <= i && i + 1 < s.len() && s[i] != 0 {
        lemma_aux_count(s, i + 2);
        assert forall|p: int| 0 <= p < aux_count(s, i) implies #[trigger] pair_in(s, i, p) by {
            if p > 0 {
                assert(pair_in(s, i + 2, p - 1));
                assert(i + 2 + 2 * (p - 1) == i + 2 * p);
            }
        }
    }
}

/// Two stacks that agree from index `i` on.
pub open spec fn agree_from(s1: Seq<usize>, s2: Seq<usize>, i: int) -> bool {
    s1.len() == s2.len() && forall|k: int| i <= k < s1.len() ==> #[trigger] s1[k] == s2[k]
}

proof fn lemma_zero_run_agree(s1: Seq<usize>, s2: Seq<usize>, i: int, from: int)
    requires
        agree_from(s1, s2, from),
        from <= i,
    ensures
        zero_run(s1, i) == zero_run(s2, i),
    decreases s1.len() - i,
{
    if 0 <= i < s1.len() {
        lemma_zero_run_agree(s1, s2, i + 1, from);
    }
}

proof fn lemma_aux_count_agree(s1: Seq<usize>, s2: Seq<usize>, i: int, from: int)
    requires
        agree_from(s1, s2, from),
        from <= i,
    ensures
        aux_count(s1, i) == aux_count(s2, i),
    decreases s1.len() - i,
{
    if 0 <= i && i + 1 < s1.len() {
        lemma_aux_count_agree(s1, s2, i + 2, from);
    }
}

/// The environment and auxiliary vector at index `start` depend only on the
/// words from `start` on.
pub proof fn lemma_env_agree(s1: Seq<usize>, s2: Seq<usize>, start: int)
    requires
        agree_from(s1, s2, start),
        0 <= start,
    ensures
        zero_run(s1, start) == zero_run(s2, start),
        env_wf(s1, start) == env_wf(s2, start),
        aux_pairs(s1, start + zero_run(s1, start) + 1) == aux_pairs(s2, start + zero_run(s2, start) + 1),
{
    lemma_zero_run_agree(s1, s2, start, start);
    let a = start + zero_run(s1, start) + 1;
    lemma_aux_count_agree(s1, s2, a, start);
    lemma_aux_count(s1, a);
    assert forall|p: int| 0 <= p < aux_count(s1, a) implies #[trigger] aux_pairs(s1, a)[p] == aux_pairs(s2, a)[p] by {
        assert(pair_in(s1, a, p));
    }
    assert(aux_pairs(s1, a) =~= aux_pairs(s2, a));
}

/// The words of the initial process stack, from the stack pointer upward
/// (`argc`, the argument pointers, a zero word, the environment pointers, a
/// zero word, then the auxiliary vector's key/value pairs ending in a zero
/// key), and the memory area that holds the argument and environment strings.
pub struct Image {
    /// Address of the first word (the stack pointer at process entry).
    pub sp: usize,
    pub words: Vec<usize>,
    /// Address of the first byte of `strings`.
    pub base: usize,
    pub strings: Vec<u8>,
}

impl Image {
    pub open spec fn argc(&self) -> int {
        self.words@[0] as int
    }

    pub open spec fn env_start(&self) -> int {
        self.argc() + 2
    }

    pub open spec fn env_count(&self) -> nat {
        zero_run(self.words@, self.env_start())
    }

    /// The pairs of the auxiliary vector.
    pub open spec fn aux(&self) -> Seq<(usize, usize)> {
        aux_pairs(self.words@, self.env_start() + self.env_count() + 1)
    }

    /// The argument strings end where the first environment string starts,
    /// or, with an empty environment, where the executed file's name starts.
    pub open spec fn has_end_of_args(&self) -> bool {
        self.env_count() > 0 || lookup(self.aux(), AT_EXECFN) is Some
    }

    /// The address just past the argument strings.
    pub open spec fn end_of_args(&self) -> usize {
        if self.env_count() > 0 {
            self.words@[self.env_start()]
        } else {
            lookup(self.aux(), AT_EXECFN)->0
        }
    }

    /// The argument pointers.
    pub open spec fn argv(&self) -> Seq<usize> {
        self.words@.subrange(1, self.argc() + 1)
    }

    /// The argument pointers followed by the word after them.
    pub open spec fn argx(&self) -> Seq<usize> {
        self.words@.subrange(1, self.argc() + 2)
    }

    /// The stack has the layout the kernel gives a new process: the argument
    /// count and its pointers, an environment list ended by a zero word and an
    /// auxiliary vector ended by a zero key.
    pub open spec fn wf(&self) -> bool {
        &&& self.words@.len() >= 1
        &&& self.argc() + 2 <= self.words@.len()
        &&& env_wf(self.words@, self.env_start())
    }
}

/// The environment list at index `start` of `s`, and the auxiliary vector that
/// follows it, both end inside `s`.
pub open spec fn env_wf(s: Seq<usize>, start: int) -> bool {
    terminated(s, start) && aux_terminated(s, start + zero_run(s, start) + 1)
}

/// The arguments of a process as found on its initial stack.
pub struct Args(pub Image);

/// A range of `len` bytes of the argument area, from address `start`.
#[derive(Clone, Copy)]
pub struct Span {
    pub start: usize,
    pub len: usize,
}

impl Args {
    /// The address of the initial stack (where `argc` is).
    pub fn get(&self) -> (res: usize)
        ensures
            res == self.0.sp,
    {
        self.0.sp
    }

    /// The number of arguments.
    pub fn argc(&self) -> (res: usize)
        requires
            self.0.wf(),
        ensures
            res == self.0.argc(),
    {
        self.0.words[0]
    }

    /// The arguments, as C strings in the argument area.
    pub fn argv(&self) -> (res: Vec<CStr<'_>>)
        requires
            self.0.wf(),
        ensures
            res@.len() == self.0.argc(),
            forall|i: int| 0 <= i < res@.len() ==> #[trigger] res@[i].addr == self.0.argv()[i]
                && res@[i].mem@ == self.0.strings@ && res@[i].base == self.0.base,
    {
        let argc = self.argc();
        let mut out: Vec<CStr<'_>> = Vec::new();
        let mut i: usize = 0;
        while i < argc
            invariant
                argc == self.0.argc(),
                self.0.wf(),
                i <= argc,
                out@.len() == i,
                forall|j: int| 0 <= j < i ==> #[trigger] out@[j].addr == self.0.argv()[j]
                    && out@[j].mem@ == self.0.strings@ && out@[j].base == self.0.base,
            decreases argc - i,
        {
            out.push(CStr { addr: self.0.words[i + 1], mem: self.0.strings.as_slice(), base: self.0.base });
            i = i + 1;
        }
        out
    }

    /// The environment and auxiliary vector that follow the arguments.
    pub fn envp(&self) -> (res: EnvAndAux<'_>)
        requires
            self.0.wf(),
        ensures
            res.words@ == self.0.words@,
            res.start == self.0.env_start(),
            res.mem@ == self.0.strings@,
            res.base == self.0.base,
            res.wf(),
    {
        let _n = self.0.words.len();
        EnvAndAux {
            words: self.0.words.as_slice(),
            start: self.0.words[0] + 2,
            mem: self.0.strings.as_slice(),
            base: self.0.base,
        }
    }

    /// Turns the stack into the form of `InitArgsMut`: the zero word after
    /// the argument pointers is replaced by the address just past the
    /// argument strings, so that each argument's extent is known.
    pub fn into_args_mut(self) -> (res: InitArgsMut)
        requires
            self.0.wf(),
            self.0.has_end_of_args(),
        ensures
            res.0.sp == self.0.sp,
            res.0.base == self.0.base,
            res.0.strings@ == self.0.strings@,
            res.0.words@ == self.0.words@.update(self.0.argc() + 1, self.0.end_of_args()),
            res.0.wf(),
    {
        let end = self.envp().end_of_args();
        let mut image = self.0;
        let k = image.words[0] + 1;
        image.words.set(k, end);
        proof {
            lemma_env_agree(self.0.words@, image.words@, self.0.env_start());
        }
        InitArgsMut(image)
    }
}

/// The initial stack after `Args::into_args_mut`: the zero word after the
/// argument pointers now holds the address just past the argument strings.
pub struct InitArgsMut(pub Image);

impl Image {
    /// The words after the argument pointers never decrease: each argument
    /// starts where the one before it ends.
    pub open spec fn ordered(&self) -> bool {
        forall|i: int| 0 <= i < self.argc() ==> #[trigger] self.argx()[i] <= self.argx()[i + 1]
    }

    /// Argument `i` is a C string in the argument area, and the next argument
    /// (or, for the last, the end of the argument strings) starts right after
    /// its NUL.
    pub open spec fn arg_fits(&self, i: int) -> bool {
        let off = self.argx()[i] - self.base;
        &&& self.base <= self.argx()[i]
        &&& c_terminated(self.strings@, off)
        &&& self.argx()[i + 1] == self.argx()[i] + nul_run(self.strings@, off) + 1
    }

    /// The argument strings lie one after the other in the argument area, as
    /// the kernel places them.
    pub open spec fn packed(&self) -> bool {
        forall|i: int| 0 <= i < self.argc() ==> #[trigger] self.arg_fits(i)
    }

    /// Argument `i` is a C string that lies in the argument area.
    pub open spec fn arg_valid(&self, i: int) -> bool {
        self.base <= self.argv()[i] && c_terminated(self.strings@, self.argv()[i] - self.base)
    }

    /// The arguments' bytes, each without its NUL.
    pub open spec fn arg_strings(&self) -> Seq<Seq<u8>> {
        Seq::new(self.argc() as nat, |i: int| c_string(self.strings@, self.argx()[i] - self.base))
    }

    /// The arguments after the first (the program's name), that is, the
    /// operands of a utility.
    pub open spec fn operands(&self) -> Seq<Seq<u8>> {
        let n: int = if self.argc() > 0 { self.argc() - 1 } else { 0 };
        Seq::new(n as nat, |i: int| self.arg_strings()[i + 1])
    }

    /// The extent of argument `i`: from its address up to that of the next
    /// argument (for the last, up to the word after the argument pointers).
    pub open spec fn span(&self, i: int) -> Span {
        Span { start: self.argx()[i], len: (self.argx()[i + 1] - self.argx()[i]) as usize }
    }
}

impl InitArgsMut {
    /// The number of arguments.
    pub fn argc(&self) -> (res: usize)
        requires
            self.0.wf(),
        ensures
            res == self.0.argc(),
    {
        self.0.words[0]
    }

    /// The argument pointers.
    pub fn argv(&self) -> (res: Vec<usize>)
        requires
            self.0.wf(),
        ensures
            res@ == self.0.argv(),
    {
        self.words_from_one(self.argc())
    }

    /// The argument pointers followed by the address just past the argument
    /// strings.
    pub fn argx(&self) -> (res: Vec<usize>)
        requires
            self.0.wf(),
        ensures
            res@ == self.0.argx(),
    {
        let _n = self.0.words.len();
        self.words_from_one(self.argc() + 1)
    }

    fn words_from_one(&self, n: usize) -> (res: Vec<usize>)
        requires
            n + 1 <= self.0.words@.len(),
        ensures
            res@ == self.0.words@.subrange(1, n + 1),
    {
        let mut out: Vec<usize> = Vec::new();
        let mut i: usize = 0;
        while i < n
            invariant
                i <= n,
                n + 1 <= self.0.words@.len(),
                out@ == self.0.words@.subrange(1, i + 1),
            decreases n - i,
        {
            out.push(self.0.words[i + 1]);
            i = i + 1;
            assert(out@ =~= self.0.words@.subrange(1, i + 1));
        }
        out
    }

    /// The environment and auxiliary vector that follow the arguments.
    pub fn envp(&self) -> (res: EnvAndAux<'_>)
        requires
            self.0.wf(),
        ensures
            res.words@ == self.0.words@,
            res.start == self.0.env_start(),
            res.mem@ == self.0.strings@,
            res.base == self.0.base,
            res.wf(),
    {
        let _n = self.0.words.len();
        EnvAndAux {
            words: self.0.words.as_slice(),
            start: self.0.words[0] + 2,
            mem: self.0.strings.as_slice(),
            base: self.0.base,
        }
    }

    /// The extents of the arguments, each from its address to the next
    /// argument's (the last one's to the end of the argument strings), so
    /// that each holds an argument and its NUL.
    pub fn args(&self) -> (res: Vec<Span>)
        requires
            self.0.wf(),
            self.0.ordered(),
        ensures
            res@.len() == self.0.argc(),
            forall|i: int| 0 <= i < res@.len() ==> #[trigger] res@[i] == self.0.span(i),
    {
        let argx = self.argx();
        let argc = self.argc();
        let mut out: Vec<Span> = Vec::new();
        let mut prev = argx[0];
        let mut i: usize = 0;
        while i < argc
            invariant
                argc == self.0.argc(),
                argx@ == self.0.argx(),
                self.0.wf(),
                self.0.ordered(),
                i <= argc,
                prev == argx@[i as int],
                out@.len() == i,
                forall|j: int| 0 <= j < i ==> #[trigger] out@[j] == self.0.span(j),
            decreases argc - i,
        {
            let next = argx[i + 1];
            assert(self.0.argx()[i as int] <= self.0.argx()[i + 1]);
            out.push(Span { start: prev, len: next - prev });
            prev = next;
            i = i + 1;
        }
        out
    }

    /// The bytes from argument `start_idx` up to the end of the argument
    /// strings; an empty span when there is no such argument.
    pub fn arg_buf(&self, start_idx: usize) -> (res: Span)
        requires
            self.0.wf(),
            start_idx < self.0.argc() ==> self.0.argv()[start_idx as int] <= self.0.argx()[self.0.argc()],
        ensures
            start_idx < self.0.argc() ==> res == (Span {
                start: self.0.argv()[start_idx as int],
                len: (self.0.argx()[self.0.argc()] - self.0.argv()[start_idx as int]) as usize,
            }),
            start_idx >= self.0.argc() ==> res.len == 0,
    {
        let argc = self.argc();
        let _n = self.0.words.len();
        if start_idx >= argc {
            return Span { start: 0, len: 0 };
        }
        let start_of_args = self.0.words[start_idx + 1];
        let end_of_args = self.0.words[argc + 1];
        Span { start: start_of_args, len: end_of_args - start_of_args }
    }
}

/// The total length of the extents of arguments `from` up to (not including) `to`.
pub open spec fn spans_len(img: Image, from: int, to: int) -> int
    decreases to - from,
{
    if from >= to {
        0
    } else {
        spans_len(img, from, to - 1) + img.span(to - 1).len
    }
}

/// The extents of the arguments from `start_idx` on lie one after the other
/// and together cover exactly what `arg_buf(start_idx)` covers: they start
/// where it starts and their lengths add up to its length.
pub proof fn lemma_arg_buf_covers_spans(img: Image, start_idx: int)
    requires
        img.wf(),
        img.ordered(),
        0 <= start_idx < img.argc(),
    ensures
        img.span(start_idx).start == img.argv()[start_idx],
        forall|i: int| start_idx <= i < img.argc() - 1 ==>
            #[trigger] img.span(i).start + img.span(i).len == img.span(i + 1).start,
        spans_len(img, start_idx, img.argc()) == img.argx()[img.argc()] - img.argv()[start_idx],
{
    assert forall|i: int| start_idx <= i < img.argc() - 1 implies
        #[trigger] img.span(i).start + img.span(i).len == img.span(i + 1).start by {
        assert(img.argx()[i] <= img.argx()[i + 1]);
    }
    lemma_spans_len(img, start_idx, img.argc());
}

proof fn lemma_spans_len(img: Image, from: int, to: int)
    requires
        img.wf(),
        img.ordered(),
        0 <= from <= to <= img.argc(),
    ensures
        spans_len(img, from, to) == img.argx()[to] - img.argx()[from],
    decreases to - from,
{
    if from < to {
        lemma_spans_len(img, from, to - 1);
        assert(img.argx()[to - 1] <= img.argx()[to]);
    }
}

/// In an ordered stack, argument pointers never exceed the ones after them.
pub proof fn lemma_ordered_le(img: Image, i: int, j: int)
    requires
        img.wf(),
        img.ordered(),
        0 <= i <= j <= img.argc(),
    ensures
        img.argx()[i] <= img.argx()[j],
    decreases j - i,
{
    if i < j {
        lemma_ordered_le(img, i, j - 1);
        assert(img.argx()[j - 1] <= img.argx()[j]);
    }
}

/// The environment pointers and the auxiliary vector of a process: `words` is
/// its initial stack and `start` the index of the first environment pointer.
#[derive(Clone, Copy)]
pub struct EnvAndAux<'a> {
    pub words: &'a [usize],
    pub start: usize,
    pub mem: &'a [u8],
    pub base: usize,
}

impl<'a> EnvAndAux<'a> {
    pub open spec fn wf(&self) -> bool {
        env_wf(self.words@, self.start as int)
    }

    pub open spec fn env_count(&self) -> nat {
        zero_run(self.words@, self.start as int)
    }

    pub open spec fn aux_start(&self) -> int {
        self.start + self.env_count() + 1
    }

    /// The pairs of the auxiliary vector.
    pub open spec fn aux(&self) -> Seq<(usize, usize)> {
        aux_pairs(self.words@, self.aux_start())
    }

    /// The environment pointers, in order.
    pub open spec fn env(&self) -> Seq<usize> {
        self.words@.subrange(self.start as int, self.start + self.env_count())
    }

    /// Index of the zero word that ends the environment list.
    fn env_end(&self) -> (res: usize)
        requires
            self.wf(),
        ensures
            res == self.start + self.env_count(),
            res < self.words@.len(),
    {
        let ghost s = self.words@;
        proof {
            lemma_zero_run(s, self.start as int);
        }
        let mut i = self.start;
        while self.words[i] != 0
            invariant
                self.start <= i <= self.start + zero_run(s, self.start as int),
                self.start + zero_run(s, self.start as int) < s.len(),
                s == self.words@,
                forall|k: int| self.start <= k < self.start + zero_run(s, self.start as int) ==> s[k] != 0,
                s[self.start + zero_run(s, self.start as int)] == 0,
            decreases self.start + zero_run(s, self.start as int) - i,
        {
            i = i + 1;
        }
        i
    }

    /// The environment pointers, up to the zero word that ends them.
    pub fn envp(self) -> (res: Vec<usize>)
        requires
            self.wf(),
        ensures
            res@ == self.env(),
            forall|k: int| 0 <= k < res@.len() ==> res@[k] != 0,
    {
        let end = self.env_end();
        proof {
            lemma_zero_run(self.words@, self.start as int);
        }
        let mut out: Vec<usize> = Vec::new();
        let mut i = self.start;
        while i < end
            invariant
                self.start <= i <= end,
                end == self.start + self.env_count(),
                end < self.words@.len(),
                out@ == self.words@.subrange(self.start as int, i as int),
            decreases end - i,
        {
            out.push(self.words[i]);
            i = i + 1;
        }
        out
    }

    /// The (key, value) pairs of the auxiliary vector, up to the zero key that
    /// ends it; every key is nonzero.
    pub fn auxv(self) -> (res: Vec<(usize, usize)>)
        requires
            self.wf(),
        ensures
            res@ == self.aux(),
            forall|k: int| 0 <= k < res@.len() ==> res@[k].0 != 0,
    {
        let ghost s = self.words@;
        let ghost a = self.aux_start();
        let n = self.words.len();
        let first = self.env_end() + 1;
        proof {
            lemma_aux_count(s, a);
        }
        let mut out: Vec<(usize, usize)> = Vec::new();
        let mut i = first;
        let ghost mut p: int = 0;
        while self.words[i] != 0
            invariant
                s == self.words@,
                first == a,
                0 <= p <= aux_count(s, a),
                i == a + 2 * p,
                a + 2 * aux_count(s, a) < s.len(),
                s[a + 2 * aux_count(s, a)] == 0,
                forall|q: int| 0 <= q < aux_count(s, a) ==> #[trigger] pair_in(s, a, q),
                out@ == aux_pairs(s, a).subrange(0, p),
            decreases aux_count(s, a) - p,
        {
            assert(p < aux_count(s, a)) by {
                if p == aux_count(s, a) {
                    assert(s[a + 2 * p] == 0);
                }
            }
            assert(pair_in(s, a, p));
            out.push((self.words[i], self.words[i + 1]));
            i = i + 2;
            proof {
                p = p + 1;
            }
            assert(out@ =~= aux_pairs(s, a).subrange(0, p));
        }
        proof {
            if p < aux_count(s, a) {
                assert(pair_in(s, a, p));
            }
        }
        assert(p == aux_count(s, a));
        assert(out@ =~= aux_pairs(s, a));
        assert forall|k: int| 0 <= k < out@.len() implies out@[k].0 != 0 by {
            assert(pair_in(s, a, k));
        }
        out
    }

    /// The value of the first auxiliary vector entry whose key is `key`.
    fn find_aux(self, key: usize) -> (res: Option<usize>)
        requires
            self.wf(),
        ensures
            res == lookup(self.aux(), key),
    {
        let pairs = self.auxv();
        let mut p: usize = 0;
        while p < pairs.len()
            invariant
                p <= pairs@.len(),
                pairs@ == self.aux(),
                lookup_from(pairs@, key, 0) == lookup_from(pairs@, key, p as int),
            decreases pairs@.len() - p,
        {
            let (k, v) = pairs[p];
            if k == key {
                return Some(v);
            }
            p = p + 1;
        }
        None
    }

    /// The name of the executed file, from the auxiliary vector's
    /// `AT_EXECFN` entry (the first one, where there are several).
    pub fn execfn(self) -> (res: CStr<'a>)
        requires
            self.wf(),
            lookup(self.aux(), AT_EXECFN) is Some,
        ensures
            res.addr == lookup(self.aux(), AT_EXECFN)->0,
            res.mem == self.mem,
            res.base == self.base,
    {
        match self.find_aux(AT_EXECFN) {
            Some(v) => CStr { addr: v, mem: self.mem, base: self.base },
            None => {
                assert(false);
                CStr { addr: 0, mem: self.mem, base: self.base }
            },
        }
    }

    /// The program's entry point, from the auxiliary vector's `AT_ENTRY` entry
    /// (the first one, where there are several), if there is one.
    pub fn entry(self) -> (res: Option<usize>)
        requires
            self.wf(),
        ensures
            res == lookup(self.aux(), AT_ENTRY),
    {
        self.find_aux(AT_ENTRY)
    }

    /// The end of the argument strings can be found: the environment is not
    /// empty, or the auxiliary vector names the executed file.
    pub fn has_end_of_args(self) -> (res: bool)
        requires
            self.wf(),
        ensures
            res == (self.env_count() > 0 || lookup(self.aux(), AT_EXECFN) is Some),
    {
        proof {
            lemma_zero_run(self.words@, self.start as int);
        }
        self.words[self.start] != 0 || self.find_aux(AT_EXECFN).is_some()
    }

    /// The address just past the argument strings: that of the first
    /// environment string, or, with an empty environment, that of the
    /// executed file's name.
    pub fn end_of_args(&self) -> (res: usize)
        requires
            self.wf(),
            self.env_count() > 0 || lookup(self.aux(), AT_EXECFN) is Some,
        ensures
            res == if self.env_count() > 0 {
                self.words@[self.start as int]
            } else {
                lookup(self.aux(), AT_EXECFN)->0
            },
    {
        proof {
            lemma_zero_run(self.words@, self.start as int);
        }
        let first = self.words[self.start];
        if first != 0 {
            first
        } else {
            self.execfn().addr
        }
    }
}

} // verus!

verus! {

/// Reading the environment list and the auxiliary vector at index `start`
/// looks at no word after the auxiliary vector's zero key: a stack that agrees
/// with `s1` up to that key has the same environment and pairs.
pub proof fn lemma_env_aux_frame(s1: Seq<usize>, s2: Seq<usize>, start: int)
    requires
        env_wf(s1, start),
        ({
            let a = start + zero_run(s1, start) + 1;
            let end = a + 2 * aux_count(s1, a);
            &&& end < s2.len()
            &&& forall|k: int| start <= k <= end ==> #[trigger] s1[k] == s2[k]
        }),
    ensures
        env_wf(s2, start),
        zero_run(s2, start) == zero_run(s1, start),
        s2.subrange(start, start + zero_run(s2, start)) == s1.subrange(start, start + zero_run(s1, start)),
        aux_pairs(s2, start + zero_run(s2, start) + 1) == aux_pairs(s1, start + zero_run(s1, start) + 1),
{
    let a = start + zero_run(s1, start) + 1;
    let end = a + 2 * aux_count(s1, a);
    lemma_zero_run(s1, start);
    lemma_zero_run_frame(s1, s2, start, end);
    lemma_aux_count(s1, a);
    lemma_aux_count_frame(s1, s2, a, start, end);
    assert(s2.subrange(start, start + zero_run(s2, start)) =~= s1.subrange(start, start + zero_run(s1, start)));
    assert forall|p: int| 0 <= p < aux_count(s1, a) implies #[trigger] aux_pairs(s1, a)[p] == aux_pairs(s2, a)[p] by {
        assert(pair_in(s1, a, p));
    }
    assert(aux_pairs(s2, a) =~= aux_pairs(s1, a));
}

proof fn lemma_zero_run_frame(s1: Seq<usize>, s2: Seq<usize>, i: int, end: int)
    requires
        0 <= i,
        terminated(s1, i),
        i + zero_run(s1, i) <= end < s2.len(),
        end < s1.len(),
        forall|k: int| i <= k <= end ==> #[trigger] s1[k] == s2[k],
    ensures
        zero_run(s2, i) == zero_run(s1, i),
    decreases s1.len() - i,
{
    if s1[i] != 0 {
        assert(s1[i] == s2[i]);
        lemma_zero_run_frame(s1, s2, i + 1, end);
    } else {
        assert(s1[i] == s2[i]);
    }
}

proof fn lemma_aux_count_frame(s1: Seq<usize>, s2: Seq<usize>, i: int, lo: int, end: int)
    requires
        lo <= i,
        aux_terminated(s1, i),
        end == i + 2 * aux_count(s1, i),
        end < s2.len(),
        forall|k: int| lo <= k <= end ==> #[trigger] s1[k] == s2[k],
    ensures
        aux_count(s2, i) == aux_count(s1, i),
    decreases s1.len() - i,
{
    if aux_count(s1, i) == 0 {
        assert(s1[i] == s2[i]);
    } else {
        assert(s1[i] == s2[i]);
        assert(s1[i] != 0);
        assert(i + 1 < s2.len());
        lemma_aux_count_frame(s1, s2, i + 2, lo, end);
    }
}

/// Turning the stack into the form of `InitArgsMut` changes neither the
/// arguments nor the environment nor the auxiliary vector; the word after the
/// argument pointers then gives the end of the argument strings.
pub proof fn lemma_into_args_mut_keeps(before: Image, after: Image)
    requires
        before.wf(),
        before.has_end_of_args(),
        after.words@ == before.words@.update(before.argc() + 1, before.end_of_args()),
    ensures
        after.wf(),
        after.argc() == before.argc(),
        after.argv() == before.argv(),
        after.argx() == before.argv().push(before.end_of_args()),
        after.env_count() == before.env_count(),
        after.aux() == before.aux(),
        after.has_end_of_args(),
        after.end_of_args() == before.end_of_args(),
{
    lemma_env_agree(before.words@, after.words@, before.env_start());
    assert(after.argv() =~= before.argv());
    assert(after.argx() =~= before.argv().push(before.end_of_args()));
}

/// When the argument strings lie one after the other, each argument's extent
/// holds exactly its bytes and its NUL, and the arguments are in address order.
pub proof fn lemma_packed_spans(img: Image, i: int)
    requires
        img.wf(),
        img.packed(),
        0 <= i < img.argc(),
    ensures
        img.ordered(),
        img.span(i).len == img.arg_strings()[i].len() + 1,
        img.strings@.subrange(img.span(i).start - img.base, img.span(i).start - img.base + img.span(i).len)
            == img.arg_strings()[i].push(0u8),
{
    assert forall|j: int| 0 <= j < img.argc() implies #[trigger] img.argx()[j] <= img.argx()[j + 1] by {
        assert(img.arg_fits(j));
    }
    assert(img.arg_fits(i));
    let off = img.argx()[i] - img.base;
    crate::cstr::lemma_nul_run(img.strings@, off);
    assert(img.strings@.subrange(off, off + nul_run(img.strings@, off) + 1)
        =~= img.arg_strings()[i].push(0u8));
}

} // verus!

verus! {

proof fn lemma_lookup_from(pairs: Seq<(usize, usize)>, key: usize, p: int)
    requires
        0 <= p <= pairs.len(),
    ensures
        (lookup_from(pairs, key, p) is None) <==> (forall|q: int| p <= q < pairs.len() ==> pairs[q].0 != key),
        forall|v: usize| lookup_from(pairs, key, p) == Some(v) ==> exists|q: int|
            p <= q < pairs.len() && pairs[q] == (key, v)
                && (forall|r: int| p <= r < q ==> pairs[r].0 != key),
        forall|q: int| p <= q < pairs.len() && pairs[q].0 == key
            && (forall|r: int| p <= r < q ==> pairs[r].0 != key)
            ==> lookup_from(pairs, key, p) == Some(pairs[q].1),
    decreases pairs.len() - p,
{
    if p < pairs.len() {
        lemma_lookup_from(pairs, key, p + 1);
        if pairs[p].0 == key {
            assert forall|v: usize| lookup_from(pairs, key, p) == Some(v) implies exists|q: int|
                p <= q < pairs.len() && pairs[q] == (key, v)
                    && (forall|r: int| p <= r < q ==> pairs[r].0 != key) by {
                assert(pairs[p] == (key, v));
            }
        } else {
            assert forall|v: usize| lookup_from(pairs, key, p) == Some(v) implies exists|q: int|
                p <= q < pairs.len() && pairs[q] == (key, v)
                    && (forall|r: int| p <= r < q ==> pairs[r].0 != key) by {
                let q = choose|q: int| p + 1 <= q < pairs.len() && pairs[q] == (key, v)
                    && (forall|r: int| p + 1 <= r < q ==> pairs[r].0 != key);
                assert(forall|r: int| p <= r < q ==> pairs[r].0 != key);
            }
            assert forall|q: int| p <= q < pairs.len() && pairs[q].0 == key
                && (forall|r: int| p <= r < q ==> pairs[r].0 != key)
                implies lookup_from(pairs, key, p) == Some(pairs[q].1) by {
                assert(q != p);
                assert(forall|r: int| p + 1 <= r < q ==> pairs[r].0 != key);
            }
        }
    }
}

/// Looking up `key` among auxiliary vector pairs gives the value of the first
/// pair whose key is `key`, wherever it stands and whatever the keys of the
/// other pairs; it gives nothing exactly when no pair has that key.
pub proof fn lemma_lookup_first_match(pairs: Seq<(usize, usize)>, key: usize)
    ensures
        forall|v: usize| lookup(pairs, key) == Some(v) <==> exists|p: int|
            0 <= p < pairs.len() && pairs[p] == (key, v)
                && (forall|q: int| 0 <= q < p ==> pairs[q].0 != key),
        (lookup(pairs, key) is None) <==> (forall|p: int| 0 <= p < pairs.len() ==> pairs[p].0 != key),
{
    lemma_lookup_from(pairs, key, 0);
    assert forall|v: usize| (exists|p: int|
        0 <= p < pairs.len() && pairs[p] == (key, v)
            && (forall|q: int| 0 <= q < p ==> pairs[q].0 != key)) implies lookup(pairs, key) == Some(v) by {
        let p = choose|p: int| 0 <= p < pairs.len() && pairs[p] == (key, v)
            && (forall|q: int| 0 <= q < p ==> pairs[q].0 != key);
        assert(pairs[p].0 == key);
    }
}

impl Image {
    /// Where the string after argument `i` starts on a stack laid out by the
    /// kernel: the next argument, or after the last argument the first
    /// environment string, or with an empty environment the executed file's
    /// name.
    pub open spec fn next_string(&self, i: int) -> usize {
        if i + 1 < self.argc() {
            self.argv()[i + 1]
        } else if self.env_count() > 0 {
            self.words@.subrange(self.env_start(), self.env_start() + self.env_count()).first()
        } else {
            lookup(self.aux(), AT_EXECFN)->0
        }
    }

    /// The strings lie as the kernel places them: each argument is a C string
    /// in the argument area, directly followed by the next string.
    pub open spec fn kernel_layout(&self) -> bool {
        forall|i: int| 0 <= i < self.argc() ==> {
            let off = self.argv()[i] - self.base;
            &&& self.base <= #[trigger] self.argv()[i]
            &&& c_terminated(self.strings@, off)
            &&& self.next_string(i) == self.argv()[i] + nul_run(self.strings@, off) + 1
        }
    }
}

/// What `into_args_mut` stores after the argument pointers is the first
/// environment pointer when the environment is not empty; so on a stack laid
/// out by the kernel its result has every argument's extent end right after
/// the argument's NUL.
pub proof fn lemma_into_args_mut_packs(before: Image, after: Image)
    requires
        before.wf(),
        before.has_end_of_args(),
        after.words@ == before.words@.update(before.argc() + 1, before.end_of_args()),
        after.strings@ == before.strings@,
        after.base == before.base,
    ensures
        before.env_count() > 0 ==> after.argx()[after.argc()]
            == before.words@.subrange(before.env_start(), before.env_start() + before.env_count())[0],
        before.kernel_layout() ==> after.packed(),
{
    lemma_into_args_mut_keeps(before, after);
    if before.kernel_layout() {
        assert forall|i: int| 0 <= i < after.argc() implies #[trigger] after.arg_fits(i) by {
            assert(after.argx()[i] == before.argv()[i]);
            assert(after.argx()[i + 1] == before.next_string(i));
        }
    }
}

} // verus!

use vstd::prelude::*;
use syscalls::Errno;
use crate::cstr::CStr;
use crate::sys::{OpenAt, OwnedFd, AT_FDCWD};

verus! {

/// The byte `-`: as an operand, standard input.
pub const DASH: u8 = 0x2d;

/// The size of the buffer that `cat` reads into: no read gives more.
pub const READ_CHUNK: usize = 4096;

/// `openat` flags with which `cat` opens its files: read-only.
pub const OPEN_FLAGS: i32 = 0;

/// `openat` mode with which `cat` opens its files (unused when reading).
pub const OPEN_MODE: i32 = 0;

/// The `openat` request for the file whose name is at `path`: relative to
/// the current working directory, read-only.
pub open spec fn open_request(path: usize) -> OpenAt {
    OpenAt { dirfd: AT_FDCWD, path, flags: OPEN_FLAGS, mode: OPEN_MODE }
}

/// Descriptor of standard input.
pub const STDIN_FD: i32 = 0;

/// Where `cat` reads one of its inputs from.
#[derive(Clone, Copy, PartialEq, Eq, Structural, Debug)]
pub enum Source {
    Stdin,
    /// The file whose name is the C string at this address.
    Path(usize),
}

/// The operand is `-`, which names standard input.
pub fn is_stdin(path: &CStr) -> (res: bool)
    requires
        path.valid(),
    ensures
        res == (path.contents() == seq![DASH]),
{
    let ghost m = path.mem@;
    let ghost o = path.offset();
    proof {
        crate::cstr::lemma_nul_run(m, o);
    }
    let i = path.addr - path.base;
    if path.mem[i] != DASH {
        proof {
            if path.contents() == seq![DASH] {
                assert(path.contents().len() == 1);
                assert(crate::cstr::nul_run(m, o) == 1);
                assert(path.contents()[0] == m[o]);
                assert(seq![DASH][0] == DASH);
            }
        }
        return false;
    }
    assert(crate::cstr::nul_run(m, o) >= 1);
    let second = path.mem[i + 1];
    proof {
        if second == 0 {
            assert(crate::cstr::nul_run(m, o) == 1) by {
                assert(crate::cstr::nul_run(m, o + 1) == 0);
            }
            assert(path.contents() =~= seq![DASH]);
        } else {
            assert(crate::cstr::nul_run(m, o) >= 2);
            assert(path.contents().len() >= 2);
        }
    }
    second == 0
}

/// The inputs of `cat` for its arguments `argv` (the first being the
/// program's name): each operand in order, `-` meaning standard input;
/// standard input alone when there is no operand.
pub fn sources(argv: &Vec<CStr>) -> (res: Vec<Source>)
    requires
        forall|i: int| 0 <= i < argv@.len() ==> (#[trigger] argv@[i]).valid(),
    ensures
        argv@.len() <= 1 ==> res@ == seq![Source::Stdin],
        argv@.len() > 1 ==> res@.len() == argv@.len() - 1 && forall|i: int| 0 <= i < res@.len() ==>
            #[trigger] res@[i] == if argv@[i + 1].contents() == seq![DASH] {
                Source::Stdin
            } else {
                Source::Path(argv@[i + 1].addr)
            },
{
    let mut out: Vec<Source> = Vec::new();
    if argv.len() <= 1 {
        out.push(Source::Stdin);
        assert(out@ =~= seq![Source::Stdin]);
        return out;
    }
    let mut i: usize = 1;
    while i < argv.len()
        invariant
            1 <= i <= argv@.len(),
            out@.len() == i - 1,
            forall|k: int| 0 <= k < argv@.len() ==> (#[trigger] argv@[k]).valid(),
            forall|k: int| 0 <= k < out@.len() ==>
                #[trigger] out@[k] == if argv@[k + 1].contents() == seq![DASH] {
                    Source::Stdin
                } else {
                    Source::Path(argv@[k + 1].addr)
                },
        decreases argv@.len() - i,
    {
        let path = &argv[i];
        if is_stdin(path) {
            out.push(Source::Stdin);
        } else {
            out.push(Source::Path(path.addr));
        }
        i = i + 1;
    }
    out
}

/// What `cat` does next.
#[derive(Clone, PartialEq, Eq, Debug)]
pub enum CatAction {
    /// Make this `openat` request.
    Open(OpenAt),
    /// Read a chunk of at most `READ_CHUNK` bytes from this descriptor.
    Read(i32),
    /// Write these bytes (the chunk just read) to standard output, all of them.
    Write(Vec<u8>),
    /// Close this descriptor.
    Close(i32),
    /// Exit with this status.
    Exit(u8),
}

/// What happened to the action `cat` asked for.
pub enum CatEvent {
    /// Nothing yet: `cat` starts.
    Start,
    /// The outcome of `Open`.
    Opened(Result<OwnedFd, Errno>),
    /// The outcome of `Read`: the bytes read (none at the end of the input),
    /// or a failure.
    ReadDone(Result<Vec<u8>, ()>),
    /// The outcome of `Write`.
    Written(Result<(), Errno>),
    /// `Close` was done.
    Closed,
}

/// Where `cat` stands between two actions.
#[derive(Clone, Copy, PartialEq, Eq, Structural, Debug)]
pub enum CatState {
    /// Before any action.
    Idle,
    /// Waiting for the outcome of `Open`.
    Opening,
    /// Waiting for the outcome of `Read` on `fd`; `owned` tells whether `cat`
    /// opened it (and must close it).
    Reading { fd: i32, owned: bool },
    /// Waiting for the outcome of `Write` of a chunk read from `fd`.
    Writing { fd: i32, owned: bool },
    /// Waiting for `Close`.
    Closing,
    /// `Exit` was asked for.
    Finished,
}

/// The `cat` utility as a state machine: it copies its inputs one after the
/// other to standard output. An input that cannot be opened is skipped and one
/// whose reading fails is ended there; either makes the exit status 1. A
/// failed write ends `cat` at once with status 1.
pub struct Cat {
    pub sources: Vec<Source>,
    /// Index of the next input to start.
    pub next: usize,
    /// The exit status so far.
    pub code: u8,
    pub state: CatState,
    /// How many of the events so far were failures.
    pub failures: Ghost<nat>,
}

impl Cat {
    pub open spec fn wf(&self) -> bool {
        &&& self.next <= self.sources@.len()
        &&& self.code <= 1
        &&& (self.code == 0 <==> self.failures@ == 0)
    }

    /// The event is the outcome of the action asked for last.
    pub open spec fn expects(&self, event: &CatEvent) -> bool {
        match self.state {
            CatState::Idle => *event is Start,
            CatState::Opening => *event is Opened,
            CatState::Reading { .. } => *event is ReadDone,
            CatState::Writing { .. } => *event is Written,
            CatState::Closing => *event is Closed,
            CatState::Finished => false,
        }
    }

    /// The event is a failure that makes the exit status 1.
    pub open spec fn is_failure(event: &CatEvent) -> bool {
        match *event {
            CatEvent::Opened(r) => r is Err,
            CatEvent::ReadDone(r) => r is Err,
            CatEvent::Written(r) => r is Err,
            _ => false,
        }
    }

    /// `cat` on the inputs `sources`.
    pub fn new(sources: Vec<Source>) -> (res: Cat)
        ensures
            res.wf(),
            res.sources@ == sources@,
            res.next == 0,
            res.code == 0,
            res.state == CatState::Idle,
            res.failures@ == 0,
    {
        Cat { sources, next: 0, code: 0, state: CatState::Idle, failures: Ghost(0) }
    }

    /// Starts the next input, or exits when there is none left.
    fn start_next(&mut self) -> (res: CatAction)
        requires
            old(self).wf(),
        ensures
            final(self).wf(),
            Cat::started_next(old(self).sources@, old(self).next, old(self).code, old(self).failures, *final(self), res),
    {
        if self.next < self.sources.len() {
            let s = self.sources[self.next];
            self.next = self.next + 1;
            match s {
                Source::Stdin => {
                    self.state = CatState::Reading { fd: STDIN_FD, owned: false };
                    CatAction::Read(STDIN_FD)
                },
                Source::Path(a) => {
                    self.state = CatState::Opening;
                    CatAction::Open(OpenAt { dirfd: AT_FDCWD, path: a, flags: OPEN_FLAGS, mode: OPEN_MODE })
                },
            }
        } else {
            self.state = CatState::Finished;
            CatAction::Exit(self.code)
        }
    }

    /// Ends the current input: closes it if `cat` opened it, else starts the
    /// next one.
    fn end_input(&mut self, fd: i32, owned: bool) -> (res: CatAction)
        requires
            old(self).wf(),
        ensures
            final(self).wf(),
            final(self).sources@ == old(self).sources@,
            final(self).code == old(self).code,
            final(self).failures == old(self).failures,
            owned ==> res == CatAction::Close(fd) && final(self).state == CatState::Closing
                && final(self).next == old(self).next,
            !owned ==> Cat::started_next(old(self).sources@, old(self).next, old(self).code, old(self).failures, *final(self), res),
    {
        if owned {
            self.state = CatState::Closing;
            CatAction::Close(fd)
        } else {
            self.start_next()
        }
    }

    /// `new` and `res` are the state and the action after starting the next
    /// input from position `next` of `sources`, with exit status `code` so far.
    pub open spec fn started_next(sources: Seq<Source>, next: usize, code: u8, failures: Ghost<nat>, new: Cat, res: CatAction) -> bool {
        &&& new.sources@ == sources
        &&& new.code == code
        &&& new.failures == failures
        &&& if next < sources.len() {
            &&& new.next == next + 1
            &&& match sources[next as int] {
                Source::Stdin => res == CatAction::Read(STDIN_FD)
                    && new.state == (CatState::Reading { fd: STDIN_FD, owned: false }),
                Source::Path(a) => res == CatAction::Open(open_request(a)) && new.state == CatState::Opening,
            }
        } else {
            &&& res == CatAction::Exit(code)
            &&& new.state == CatState::Finished
            &&& new.next == next
        }
    }

    /// Takes the outcome of the last action and tells the next one.
    pub fn step(&mut self, event: CatEvent) -> (res: CatAction)
        requires
            old(self).wf(),
            old(self).expects(&event),
            event matches CatEvent::ReadDone(Ok(data)) ==> data@.len() <= READ_CHUNK,
        ensures
            final(self).wf(),
            res matches CatAction::Write(data) ==> 0 < data@.len() <= READ_CHUNK,
            res matches CatAction::Exit(_) ==> final(self).next == final(self).sources@.len()
                || event matches CatEvent::Written(Err(_)),
            final(self).sources@ == old(self).sources@,
            final(self).code == if Cat::is_failure(&event) { 1u8 } else { old(self).code },
            final(self).failures@ == old(self).failures@ + if Cat::is_failure(&event) { 1nat } else { 0nat },
            res matches CatAction::Exit(c) ==> (c == 0 <==> final(self).failures@ == 0),
            match (old(self).state, event) {
                (CatState::Idle, CatEvent::Start) => Cat::started_next(old(self).sources@, old(self).next, old(self).code, old(self).failures, *final(self), res),
                (CatState::Closing, CatEvent::Closed) => Cat::started_next(old(self).sources@, old(self).next, old(self).code, old(self).failures, *final(self), res),
                (CatState::Opening, CatEvent::Opened(Ok(fd))) => res == CatAction::Read(fd.0)
                    && final(self).state == (CatState::Reading { fd: fd.0, owned: true })
                    && final(self).next == old(self).next,
                (CatState::Opening, CatEvent::Opened(Err(_))) => Cat::started_next(old(self).sources@, old(self).next, 1, final(self).failures, *final(self), res),
                (CatState::Reading { fd, owned }, CatEvent::ReadDone(Ok(data))) => if data@.len() == 0 {
                    if owned {
                        res == CatAction::Close(fd) && final(self).state == CatState::Closing
                            && final(self).next == old(self).next
                    } else {
                        Cat::started_next(old(self).sources@, old(self).next, old(self).code, old(self).failures, *final(self), res)
                    }
                } else {
                    res == CatAction::Write(data) && final(self).state == (CatState::Writing { fd, owned })
                        && final(self).next == old(self).next
                },
                (CatState::Reading { fd, owned }, CatEvent::ReadDone(Err(_))) => if owned {
                    res == CatAction::Close(fd) && final(self).state == CatState::Closing
                        && final(self).next == old(self).next
                } else {
                    Cat::started_next(old(self).sources@, old(self).next, 1, final(self).failures, *final(self), res)
                },
                (CatState::Writing { fd, owned }, CatEvent::Written(Ok(()))) => res == CatAction::Read(fd)
                    && final(self).state == (CatState::Reading { fd, owned })
                    && final(self).next == old(self).next,
                (CatState::Writing { .. }, CatEvent::Written(Err(_))) => res == CatAction::Exit(1)
                    && final(self).state == CatState::Finished,
                _ => false,
            },
    {
        let state = self.state;
        match event {
            CatEvent::Start => self.start_next(),
            CatEvent::Closed => self.start_next(),
            CatEvent::Opened(Ok(fd)) => {
                let raw = fd.0;
                self.state = CatState::Reading { fd: raw, owned: true };
                CatAction::Read(raw)
            },
            CatEvent::Opened(Err(_)) => {
                self.code = 1;
                proof {
                    self.failures = Ghost(self.failures@ + 1);
                }
                self.start_next()
            },
            CatEvent::ReadDone(r) => {
                let (fd, owned) = match state {
                    CatState::Reading { fd, owned } => (fd, owned),
                    _ => {
                        assert(false);
                        (0, false)
                    },
                };
                match r {
                    Ok(data) => if data.len() == 0 {
                        self.end_input(fd, owned)
                    } else {
                        self.state = CatState::Writing { fd, owned };
                        CatAction::Write(data)
                    },
                    Err(_) => {
                        self.code = 1;
                        proof {
                            self.failures = Ghost(self.failures@ + 1);
                        }
                        self.end_input(fd, owned)
                    },
                }
            },
            CatEvent::Written(r) => {
                let (fd, owned) = match state {
                    CatState::Writing { fd, owned } => (fd, owned),
                    _ => {
                        assert(false);
                        (0, false)
                    },
                };
                match r {
                    Ok(()) => {
                        self.state = CatState::Reading { fd, owned };
                        CatAction::Read(fd)
                    },
                    Err(_) => {
                        self.code = 1;
                        proof {
                            self.failures = Ghost(self.failures@ + 1);
                        }
                        self.state = CatState::Finished;
                        CatAction::Exit(1)
                    },
                }
            },
        }
    }
}

/// Starting the next input never ends `cat` while an input is left: it
/// exits exactly when every input has been started, and otherwise starts
/// input `next` (opening a file read-only in the working directory, or
/// reading standard input), whatever inputs came before and however they
/// went.
pub proof fn lemma_started_next_takes_every_input(
    sources: Seq<Source>,
    next: usize,
    code: u8,
    failures: Ghost<nat>,
    new: Cat,
    res: CatAction,
)
    requires
        Cat::started_next(sources, next, code, failures, new, res),
        next <= sources.len(),
    ensures
        (res is Exit) <==> next == sources.len(),
        res is Exit ==> new.next == sources.len() && res == CatAction::Exit(code),
        next < sources.len() ==> new.next == next + 1 && res == match sources[next as int] {
            Source::Stdin => CatAction::Read(0i32),
            Source::Path(a) => CatAction::Open(OpenAt { dirfd: -100i32, path: a, flags: 0i32, mode: 0i32 }),
        },
{
}

} // verus!

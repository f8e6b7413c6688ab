use raw_linux::cat::{is_stdin, sources, Cat, CatAction, CatEvent, Source, READ_CHUNK};
use raw_linux::sys::{OpenAt, AT_FDCWD};
use raw_linux::cstr::CStr;
use raw_linux::sys::OwnedFd;
use syscalls::Errno;

#[test]
fn dash_alone_means_stdin() {
    let mem = b"-\0--\0\0a\0-x\0".to_vec();
    let at = |off: usize| CStr { addr: 0x10 + off, mem: &mem, base: 0x10 };
    assert!(is_stdin(&at(0)));
    assert!(!is_stdin(&at(2)));
    assert!(!is_stdin(&at(5)));
    assert!(!is_stdin(&at(6)));
    assert!(!is_stdin(&at(8)));
}

#[test]
fn sources_without_operands_is_stdin() {
    let mem = b"cat\0".to_vec();
    let argv = vec![CStr { addr: 0, mem: &mem, base: 0 }];
    assert_eq!(sources(&argv), vec![Source::Stdin]);
}

#[test]
fn sources_follow_the_operands() {
    let mem = b"cat\0-\0f\0".to_vec();
    let argv = vec![
        CStr { addr: 0, mem: &mem, base: 0 },
        CStr { addr: 4, mem: &mem, base: 0 },
        CStr { addr: 6, mem: &mem, base: 0 },
    ];
    assert_eq!(sources(&argv), vec![Source::Stdin, Source::Path(6)]);
}

#[test]
fn cat_copies_a_file_and_closes_it() {
    let mut cat = Cat::new(vec![Source::Path(0x40)]);
    assert_eq!(cat.step(CatEvent::Start), CatAction::Open(open_at(0x40)));
    assert_eq!(cat.step(CatEvent::Opened(Ok(OwnedFd(5)))), CatAction::Read(5));
    assert_eq!(cat.step(CatEvent::ReadDone(Ok(b"xxxxxxxxxxxx".to_vec()))), CatAction::Write(b"xxxxxxxxxxxx".to_vec()));
    assert_eq!(cat.step(CatEvent::Written(Ok(()))), CatAction::Read(5));
    assert_eq!(cat.step(CatEvent::ReadDone(Ok(vec![]))), CatAction::Close(5));
    assert_eq!(cat.step(CatEvent::Closed), CatAction::Exit(0));
}

#[test]
fn cat_skips_a_file_it_cannot_open() {
    let mut cat = Cat::new(vec![Source::Path(0x40), Source::Stdin]);
    assert_eq!(cat.step(CatEvent::Start), CatAction::Open(open_at(0x40)));
    assert_eq!(cat.step(CatEvent::Opened(Err(Errno::new(2)))), CatAction::Read(0));
    assert_eq!(cat.step(CatEvent::ReadDone(Ok(vec![]))), CatAction::Exit(1));
}

#[test]
fn cat_ends_an_input_whose_read_fails() {
    let mut cat = Cat::new(vec![Source::Stdin, Source::Path(0x40)]);
    assert_eq!(cat.step(CatEvent::Start), CatAction::Read(0));
    assert_eq!(cat.step(CatEvent::ReadDone(Err(()))), CatAction::Open(open_at(0x40)));
    assert_eq!(cat.step(CatEvent::Opened(Ok(OwnedFd(3)))), CatAction::Read(3));
    assert_eq!(cat.step(CatEvent::ReadDone(Ok(vec![]))), CatAction::Close(3));
    assert_eq!(cat.step(CatEvent::Closed), CatAction::Exit(1));
}

#[test]
fn cat_exits_at_once_when_a_write_fails() {
    let mut cat = Cat::new(vec![Source::Stdin, Source::Path(0x40)]);
    assert_eq!(cat.step(CatEvent::Start), CatAction::Read(0));
    assert_eq!(cat.step(CatEvent::ReadDone(Ok(b"xxx".to_vec()))), CatAction::Write(b"xxx".to_vec()));
    assert_eq!(cat.step(CatEvent::Written(Err(Errno::new(32)))), CatAction::Exit(1));
}

#[test]
fn cat_reads_stdin_without_closing_it() {
    let mut cat = Cat::new(vec![Source::Stdin, Source::Stdin]);
    assert_eq!(cat.step(CatEvent::Start), CatAction::Read(0));
    assert_eq!(cat.step(CatEvent::ReadDone(Ok(vec![]))), CatAction::Read(0));
    assert_eq!(cat.step(CatEvent::ReadDone(Ok(vec![]))), CatAction::Exit(0));
}

#[test]
fn cat_writes_exactly_the_bytes_it_read() {
    let mut cat = Cat::new(vec![Source::Stdin]);
    assert_eq!(cat.step(CatEvent::Start), CatAction::Read(0));
    assert_eq!(cat.step(CatEvent::ReadDone(Ok(b"hello\n".to_vec()))), CatAction::Write(b"hello\n".to_vec()));
    assert_eq!(cat.step(CatEvent::Written(Ok(()))), CatAction::Read(0));
    assert_eq!(cat.step(CatEvent::ReadDone(Ok(vec![]))), CatAction::Exit(0));
}

fn open_at(path: usize) -> OpenAt {
    OpenAt { dirfd: AT_FDCWD, path, flags: 0, mode: 0 }
}

#[test]
fn cat_opens_read_only_in_the_working_directory() {
    let mut cat = Cat::new(vec![Source::Path(0x80)]);
    match cat.step(CatEvent::Start) {
        CatAction::Open(req) => assert_eq!((req.dirfd, req.path, req.flags, req.mode), (-100, 0x80, 0, 0)),
        other => panic!("expected an open, got {:?}", other),
    }
}

#[test]
fn cat_writes_a_full_chunk() {
    assert_eq!(READ_CHUNK, 4096);
    let mut cat = Cat::new(vec![Source::Stdin]);
    assert_eq!(cat.step(CatEvent::Start), CatAction::Read(0));
    let chunk = vec![7u8; READ_CHUNK];
    assert_eq!(cat.step(CatEvent::ReadDone(Ok(chunk.clone()))), CatAction::Write(chunk));
}

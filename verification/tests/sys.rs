use raw_linux::cstr::CStr;
use raw_linux::sys::{status, timespec, BorrowedBuf, OwnedFd, WriteStep, AT_FDCWD};
use syscalls::Errno;

#[test]
fn write_all_writes_the_rest_until_done() {
    let fd = OwnedFd(1);
    let mut w = fd.write_all(b"0123456789");
    assert!(matches!(w.next(), WriteStep::Write { fd: 1, offset: 0 }));
    w.written(Ok(4));
    assert!(matches!(w.next(), WriteStep::Write { fd: 1, offset: 4 }));
    w.written(Ok(0));
    assert!(matches!(w.next(), WriteStep::Write { fd: 1, offset: 4 }));
    w.written(Ok(6));
    assert!(matches!(w.next(), WriteStep::Done(Ok(()))));
}

#[test]
fn write_all_of_nothing_is_done_at_once() {
    let w = OwnedFd(1).write_all(b"");
    assert!(matches!(w.next(), WriteStep::Done(Ok(()))));
}

#[test]
fn write_all_stops_at_the_first_error() {
    let mut w = OwnedFd(2).write_all(b"hello");
    w.written(Ok(2));
    w.written(Err(Errno::new(32)));
    match w.next() {
        WriteStep::Done(Err(e)) => assert_eq!(e, Errno::new(32)),
        _ => panic!("expected the write error"),
    }
    assert_eq!(w.offset, 2);
}

#[test]
fn openat_defaults_to_the_working_directory() {
    let mem = b"a.txt\0".to_vec();
    let path = CStr { addr: 0x100, mem: &mem, base: 0x100 };
    let req = OwnedFd::openat(None, &path, 0, 0);
    assert_eq!(req.dirfd, AT_FDCWD);
    assert_eq!(req.dirfd, -100);
    assert_eq!(req.path, 0x100);
    let dir = OwnedFd(7);
    let req = OwnedFd::openat(Some(&dir), &path, 2, 0o644);
    assert_eq!((req.dirfd, req.flags, req.mode), (7, 2, 0o644));
}

#[test]
fn opened_keeps_the_descriptor_or_the_error() {
    match OwnedFd::opened(Ok(3)) {
        Ok(fd) => assert_eq!(fd.0, 3),
        Err(_) => panic!("expected a descriptor"),
    }
    match OwnedFd::opened(Err(Errno::new(2))) {
        Err(e) => assert_eq!(e, Errno::new(2)),
        Ok(_) => panic!("expected the error"),
    }
}

#[test]
fn borrowed_buf_starts_empty() {
    let buf = BorrowedBuf::new(vec![0u8; 8]);
    assert_eq!(buf.filled(), &[] as &[u8]);
    assert_eq!(buf.free(), 8);
}

#[test]
fn read_buf_appends_what_was_read() {
    let fd = OwnedFd(0);
    let mut buf = BorrowedBuf::new(vec![0u8; 8]);
    assert_eq!(fd.read_buf(&mut buf, Ok(b"abc")), Ok(3));
    assert_eq!(fd.read_buf(&mut buf, Ok(b"de")), Ok(2));
    assert_eq!(buf.filled(), b"abcde");
    assert_eq!(buf.free(), 3);
}

#[test]
fn read_buf_error_leaves_the_buffer() {
    let fd = OwnedFd(0);
    let mut buf = BorrowedBuf::new(vec![0u8; 4]);
    assert_eq!(fd.read_buf(&mut buf, Ok(b"x")), Ok(1));
    assert_eq!(fd.read_buf(&mut buf, Err(Errno::new(4))), Err(Errno::new(4)));
    assert_eq!(buf.filled(), b"x");
}

#[test]
fn status_is_zero_only_on_success() {
    assert_eq!(status(&Ok(())), 0);
    assert_eq!(status(&Err(Errno::new(1))), 1);
}

#[test]
fn timespec_carries_the_duration() {
    let t = timespec(3, 250_000_000);
    assert_eq!(t.tv_sec, 3);
    assert_eq!(t.tv_nsec, 250_000_000);
}

#[test]
fn commit_appends_to_the_filled_bytes() {
    let mut buf = BorrowedBuf::new(vec![0u8; 6]);
    buf.commit(b"ab");
    buf.commit(b"");
    buf.commit(b"cde");
    assert_eq!(buf.filled(), b"abcde");
    assert_eq!(buf.free(), 1);
}

#[test]
fn timespec_nanoseconds_are_a_c_int() {
    let t = timespec(0, 999_999_999);
    assert_eq!(t.tv_nsec, 999_999_999i32);
}

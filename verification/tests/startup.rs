use raw_linux::startup::{Args, Image, AT_ENTRY, AT_EXECFN};

const BASE: usize = 0x7000;

/// The argument area for `strs`, laid out one after the other from `BASE`,
/// and the address of each string.
fn area(strs: &[&str]) -> (Vec<u8>, Vec<usize>) {
    let mut mem = Vec::new();
    let mut addrs = Vec::new();
    for s in strs {
        addrs.push(BASE + mem.len());
        mem.extend_from_slice(s.as_bytes());
        mem.push(0);
    }
    (mem, addrs)
}

/// An initial stack with `argc` arguments, `envc` environment strings (after
/// the arguments in `strs`) and the given auxiliary vector pairs.
fn image(strs: &[&str], argc: usize, aux: &[(usize, usize)]) -> Image {
    let (mem, addrs) = area(strs);
    let mut words = vec![argc];
    words.extend_from_slice(&addrs[..argc]);
    words.push(0);
    words.extend_from_slice(&addrs[argc..]);
    words.push(0);
    for (k, v) in aux {
        words.push(*k);
        words.push(*v);
    }
    words.push(0);
    words.push(0);
    Image { sp: 0x9000, words, base: BASE, strings: mem }
}

#[test]
fn get_gives_the_stack_address() {
    let args = Args(image(&["prog"], 1, &[]));
    assert_eq!(args.get(), 0x9000);
}

#[test]
fn argc_and_argv_follow_the_stack() {
    let args = Args(image(&["prog", "a", "bc", "HOME=/"], 3, &[]));
    assert_eq!(args.argc(), 3);
    let argv = args.argv();
    assert_eq!(argv.len(), 3);
    assert_eq!(argv[0].bytes(), b"prog".to_vec());
    assert_eq!(argv[1].bytes(), b"a".to_vec());
    assert_eq!(argv[2].bytes(), b"bc".to_vec());
    assert_eq!(argv[1].addr, BASE + 5);
}

#[test]
fn envp_lists_the_environment_pointers() {
    let args = Args(image(&["prog", "A=1", "B=2"], 1, &[(AT_ENTRY, 0x400000)]));
    let env = args.envp();
    assert_eq!(env.start, 3);
    assert_eq!(env.envp(), vec![BASE + 5, BASE + 9]);
}

#[test]
fn empty_environment_gives_no_pointers() {
    let args = Args(image(&["prog"], 1, &[(AT_ENTRY, 0x400000)]));
    assert_eq!(args.envp().envp(), Vec::<usize>::new());
}

#[test]
fn auxv_gives_the_pairs_before_the_zero_key() {
    let args = Args(image(&["prog", "A=1"], 1, &[(6, 4096), (AT_ENTRY, 0x401000), (AT_EXECFN, 0x8000)]));
    assert_eq!(args.envp().auxv(), vec![(6, 4096), (AT_ENTRY, 0x401000), (AT_EXECFN, 0x8000)]);
}

#[test]
fn entry_takes_the_first_at_entry() {
    let args = Args(image(&["prog"], 1, &[(AT_ENTRY, 0x401000), (AT_ENTRY, 0x500000)]));
    assert_eq!(args.envp().entry(), Some(0x401000));
}

#[test]
fn entry_is_none_without_at_entry() {
    let args = Args(image(&["prog"], 1, &[(6, 4096)]));
    assert_eq!(args.envp().entry(), None);
}

#[test]
fn execfn_points_at_the_file_name() {
    let args = Args(image(&["prog", "/bin/prog"], 1, &[(AT_EXECFN, BASE + 5)]));
    let name = args.envp().execfn();
    assert_eq!(name.addr, BASE + 5);
    assert_eq!(name.bytes(), b"/bin/prog".to_vec());
}

#[test]
fn end_of_args_is_the_first_environment_string() {
    let args = Args(image(&["prog", "x", "A=1"], 2, &[(AT_EXECFN, 0x8000)]));
    assert_eq!(args.envp().end_of_args(), BASE + 7);
}

#[test]
fn end_of_args_without_environment_is_the_file_name() {
    let mut img = image(&["prog", "x"], 2, &[(AT_EXECFN, BASE + 7)]);
    img.strings.extend_from_slice(b"/bin/prog\0");
    let args = Args(img);
    assert_eq!(args.envp().end_of_args(), BASE + 7);
}

#[test]
fn into_args_mut_stores_the_end_of_the_arguments() {
    let args = Args(image(&["prog", "x", "A=1"], 2, &[(AT_ENTRY, 1)]));
    let init = args.into_args_mut();
    assert_eq!(init.argc(), 2);
    assert_eq!(init.argv(), vec![BASE, BASE + 5]);
    assert_eq!(init.argx(), vec![BASE, BASE + 5, BASE + 7]);
    assert_eq!(init.envp().envp(), vec![BASE + 7]);
    assert_eq!(init.envp().entry(), Some(1));
}

#[test]
fn args_are_the_extents_between_argument_pointers() {
    let args = Args(image(&["prog", "ab", "", "A=1"], 3, &[]));
    let init = args.into_args_mut();
    let spans = init.args();
    assert_eq!(spans.len(), 3);
    assert_eq!((spans[0].start, spans[0].len), (BASE, 5));
    assert_eq!((spans[1].start, spans[1].len), (BASE + 5, 3));
    assert_eq!((spans[2].start, spans[2].len), (BASE + 8, 1));
}

#[test]
fn arg_buf_runs_to_the_end_of_the_arguments() {
    let args = Args(image(&["prog", "ab", "c", "A=1"], 3, &[]));
    let init = args.into_args_mut();
    let buf = init.arg_buf(1);
    assert_eq!((buf.start, buf.len), (BASE + 5, 5));
    assert_eq!(init.arg_buf(3).len, 0);
    assert_eq!(init.arg_buf(7).len, 0);
}

#[test]
fn cstr_bytes_stop_at_the_first_nul() {
    let mem = b"ab\0cd\0".to_vec();
    let s = raw_linux::cstr::CStr { addr: 0x20, mem: &mem, base: 0x20 };
    assert_eq!(s.bytes(), b"ab".to_vec());
    let e = raw_linux::cstr::CStr { addr: 0x22, mem: &mem, base: 0x20 };
    assert_eq!(e.bytes(), Vec::<u8>::new());
}

#[test]
fn has_end_of_args_needs_environment_or_file_name() {
    assert!(Args(image(&["prog", "A=1"], 1, &[])).envp().has_end_of_args());
    assert!(Args(image(&["prog"], 1, &[(AT_EXECFN, 0x8000)])).envp().has_end_of_args());
    assert!(!Args(image(&["prog"], 1, &[(AT_ENTRY, 1)])).envp().has_end_of_args());
}

#[test]
fn argument_spans_add_up_to_arg_buf() {
    let args = Args(image(&["prog", "ab", "", "cde", "A=1"], 4, &[]));
    let init = args.into_args_mut();
    let spans = init.args();
    let buf = init.arg_buf(1);
    assert_eq!(buf.start, spans[1].start);
    assert_eq!(buf.len, spans[1].len + spans[2].len + spans[3].len);
    assert_eq!(spans[1].start + spans[1].len, spans[2].start);
}

#[test]
fn words_after_the_zero_key_do_not_matter() {
    let mut img = image(&["prog", "A=1"], 1, &[(AT_ENTRY, 5)]);
    let before = Args(image(&["prog", "A=1"], 1, &[(AT_ENTRY, 5)])).envp().auxv();
    let n = img.words.len();
    img.words[n - 1] = 0xdead;
    img.words.push(0xbeef);
    let args = Args(img);
    assert_eq!(args.envp().auxv(), before);
    assert_eq!(args.envp().envp(), vec![BASE + 5]);
}

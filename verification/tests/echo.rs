use raw_linux::echo::echo;
use raw_linux::startup::{Args, Image};

const BASE: usize = 0x7000;

fn init_for(strs: &[&str], argc: usize) -> raw_linux::startup::InitArgsMut {
    let mut mem = Vec::new();
    let mut addrs = Vec::new();
    for s in strs {
        addrs.push(BASE + mem.len());
        mem.extend_from_slice(s.as_bytes());
        mem.push(0);
    }
    let mut words = vec![argc];
    words.extend_from_slice(&addrs[..argc]);
    words.push(0);
    words.extend_from_slice(&addrs[argc..]);
    words.push(0);
    words.push(0);
    words.push(0);
    Args(Image { sp: 0, words, base: BASE, strings: mem }).into_args_mut()
}

#[test]
fn echo_joins_operands_with_spaces() {
    let mut init = init_for(&["echo", "hello", "big", "world", "HOME=/"], 4);
    assert_eq!(echo(&mut init), b"hello big world\n".to_vec());
}

#[test]
fn echo_without_operands_prints_a_newline() {
    let mut init = init_for(&["echo", "HOME=/"], 1);
    assert_eq!(echo(&mut init), b"\n".to_vec());
    assert_eq!(init.0.strings, b"echo\0HOME=/\0".to_vec());
}

#[test]
fn echo_single_operand() {
    let mut init = init_for(&["echo", "x", "A=1"], 2);
    assert_eq!(echo(&mut init), b"x\n".to_vec());
}

#[test]
fn echo_keeps_empty_operands() {
    let mut init = init_for(&["echo", "", "b", "", "A=1"], 4);
    assert_eq!(echo(&mut init), b" b \n".to_vec());
}

#[test]
fn echo_rewrites_the_argument_area_in_place() {
    let mut init = init_for(&["echo", "a", "b", "A=1"], 3);
    let out = echo(&mut init);
    assert_eq!(out, b"a b\n".to_vec());
    assert_eq!(init.0.strings, b"echo\0a b\nA=1\0".to_vec());
}

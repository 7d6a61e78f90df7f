//! The scripted-evaluation builder: key declaration and the zero
//! key-count rule, checked on the frames the builder produces.

use rustis::args::BulkString;
use rustis::command::{cmd, Eval, ScriptingCommands};

struct Commands;

impl ScriptingCommands for Commands {}

fn args_of(c: &rustis::command::Command) -> Vec<Vec<u8>> {
    let mut out = Vec::new();
    let mut i = 0;
    while i < c.num_args() {
        out.push(c.get_arg(i).clone());
        i += 1;
    }
    out
}

#[test]
fn zero_key_eval_emits_explicit_zero_key_count() {
    let built = Commands
        .eval(BulkString::from_text("return ARGV[1]"))
        .args(vec!["hello"])
        .execute();
    assert_eq!(built.name_bytes(), &b"EVAL".to_vec());
    assert_eq!(
        args_of(&built),
        vec![
            b"return ARGV[1]".to_vec(),
            b"0".to_vec(),
            b"hello".to_vec(),
        ]
    );
}

#[test]
fn two_declared_keys_emit_key_count_two_before_args() {
    let built = Commands
        .eval(BulkString::from_text("return 1"))
        .keys(vec!["k1", "k2"])
        .args(vec!["a1"])
        .execute();
    assert_eq!(
        args_of(&built),
        vec![
            b"return 1".to_vec(),
            b"2".to_vec(),
            b"k1".to_vec(),
            b"k2".to_vec(),
            b"a1".to_vec(),
        ]
    );
}

#[test]
fn key_count_written_once_never_reinserted() {
    let built = Commands
        .eval(BulkString::from_text("return 1"))
        .args(vec!["a"])
        .args(vec!["b"])
        .execute();
    assert_eq!(
        args_of(&built),
        vec![
            b"return 1".to_vec(),
            b"0".to_vec(),
            b"a".to_vec(),
            b"b".to_vec(),
        ]
    );
}

#[test]
fn evalsha_and_script_load_build_expected_commands() {
    let sha = Commands.evalsha(BulkString::from_text("abc123")).execute();
    assert_eq!(sha.name_bytes(), &b"EVALSHA".to_vec());
    assert_eq!(args_of(&sha), vec![b"abc123".to_vec()]);

    let load = Commands.script_load(BulkString::from_text("return 1"));
    assert_eq!(load.name_bytes(), &b"SCRIPT".to_vec());
    assert_eq!(args_of(&load), vec![b"LOAD".to_vec(), b"return 1".to_vec()]);
}

#[test]
fn eval_builder_from_new_starts_without_keys() {
    let built = Eval::new(&Commands, cmd("EVAL").arg("return 0"))
        .keys(vec!["only"])
        .execute();
    assert_eq!(
        args_of(&built),
        vec![b"return 0".to_vec(), b"1".to_vec(), b"only".to_vec()]
    );
}

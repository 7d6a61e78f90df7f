//! The argument-count law on concrete values: for every supported value
//! type, the declared count equals the number of raw arguments appending
//! actually produces, and the produced bytes are the documented ones.

use rustis::args::{BulkString, CommandArgs, ToArgs};

fn produced<T: ToArgs>(v: &T) -> usize {
    let mut args = CommandArgs::new();
    let before = args.len();
    v.write_args(&mut args);
    args.len() - before
}

fn arg_bytes<T: ToArgs>(v: &T) -> Vec<Vec<u8>> {
    let mut args = CommandArgs::new();
    v.write_args(&mut args);
    let mut out = Vec::new();
    let mut i = 0;
    while i < args.len() {
        out.push(args.get(i).clone());
        i += 1;
    }
    out
}

#[test]
fn count_matches_append_integers() {
    assert_eq!(produced(&0i8), 0i8.num_args());
    assert_eq!(produced(&-7i16), (-7i16).num_args());
    assert_eq!(produced(&42u16), 42u16.num_args());
    assert_eq!(produced(&-100000i32), (-100000i32).num_args());
    assert_eq!(produced(&100000u32), 100000u32.num_args());
    assert_eq!(produced(&i64::MIN), i64::MIN.num_args());
    assert_eq!(produced(&u64::MAX), u64::MAX.num_args());
    assert_eq!(produced(&3usize), 3usize.num_args());
    assert_eq!(produced(&-3isize), (-3isize).num_args());
}

#[test]
fn integer_bytes_are_decimal_ascii() {
    assert_eq!(arg_bytes(&0u16), vec![b"0".to_vec()]);
    assert_eq!(arg_bytes(&12345u32), vec![b"12345".to_vec()]);
    assert_eq!(arg_bytes(&-87i32), vec![b"-87".to_vec()]);
    assert_eq!(arg_bytes(&i64::MIN), vec![b"-9223372036854775808".to_vec()]);
    assert_eq!(arg_bytes(&u64::MAX), vec![b"18446744073709551615".to_vec()]);
}

#[test]
fn count_matches_append_bool_and_bytes() {
    assert_eq!(produced(&true), true.num_args());
    assert_eq!(produced(&false), false.num_args());
    assert_eq!(arg_bytes(&true), vec![b"1".to_vec()]);
    assert_eq!(arg_bytes(&false), vec![b"0".to_vec()]);

    let buf: Vec<u8> = vec![0, 159, 146, 150];
    assert_eq!(produced(&buf), buf.num_args());
    assert_eq!(arg_bytes(&buf), vec![vec![0, 159, 146, 150]]);

    let arr: [u8; 3] = [1, 0, 2];
    assert_eq!(produced(&arr), arr.num_args());
    assert_eq!(arg_bytes(&arr), vec![vec![1, 0, 2]]);

    let slice: &[u8] = &[9, 8];
    assert_eq!(produced(&slice), slice.num_args());
}

#[test]
fn count_matches_append_strings() {
    let s = String::from("hello");
    assert_eq!(produced(&s), s.num_args());
    assert_eq!(arg_bytes(&s), vec![b"hello".to_vec()]);

    let st = "world";
    assert_eq!(produced(&st), st.num_args());
    assert_eq!(arg_bytes(&st), vec![b"world".to_vec()]);

    let empty = "";
    assert_eq!(produced(&empty), empty.num_args());
    assert_eq!(arg_bytes(&empty), vec![b"".to_vec()]);

    let bs = BulkString::from_text("script body");
    assert_eq!(produced(&bs), bs.num_args());
    assert_eq!(arg_bytes(&bs), vec![b"script body".to_vec()]);
}

#[test]
fn count_matches_append_option() {
    let some: Option<u32> = Some(5);
    let none: Option<u32> = None;
    assert_eq!(produced(&some), some.num_args());
    assert_eq!(some.num_args(), 1);
    assert_eq!(produced(&none), none.num_args());
    assert_eq!(none.num_args(), 0);
    assert_eq!(arg_bytes(&none), Vec::<Vec<u8>>::new());
}

#[test]
fn count_matches_append_collections() {
    let v: Vec<u32> = vec![1, 2, 3];
    assert_eq!(produced(&v), v.num_args());
    assert_eq!(v.num_args(), 3);
    assert_eq!(
        arg_bytes(&v),
        vec![b"1".to_vec(), b"2".to_vec(), b"3".to_vec()]
    );

    let empty: Vec<u32> = vec![];
    assert_eq!(produced(&empty), empty.num_args());
    assert_eq!(empty.num_args(), 0);

    let kv: Vec<(&str, u32)> = vec![("a", 1), ("b", 2)];
    assert_eq!(produced(&kv), kv.num_args());
    assert_eq!(kv.num_args(), 4);
    assert_eq!(
        arg_bytes(&kv),
        vec![b"a".to_vec(), b"1".to_vec(), b"b".to_vec(), b"2".to_vec()]
    );
}

#[test]
fn count_matches_append_tuples() {
    let pair = ("key", 7u32);
    assert_eq!(produced(&pair), pair.num_args());
    assert_eq!(pair.num_args(), 2);

    let triple = ("a", 1u32, true);
    assert_eq!(produced(&triple), triple.num_args());
    assert_eq!(triple.num_args(), 3);
    assert_eq!(
        arg_bytes(&triple),
        vec![b"a".to_vec(), b"1".to_vec(), b"1".to_vec()]
    );
}

#[test]
fn count_matches_append_command_args() {
    let mut inner = CommandArgs::new();
    inner.write_arg(b"x");
    inner.write_arg(b"");
    inner.write_arg(&[0, 13, 10]);
    assert_eq!(produced(&inner), inner.num_args());
    assert_eq!(inner.num_args(), 3);
    assert_eq!(
        arg_bytes(&inner),
        vec![b"x".to_vec(), b"".to_vec(), vec![0, 13, 10]]
    );
}

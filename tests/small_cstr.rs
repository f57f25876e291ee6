use kaleidoscope::{SmallCStr, SMALL_STR_SIZE};
use std::convert::TryInto;

#[test]
fn test_create() {
    let src = "\x30\x31\x32\x33";
    let scs = SmallCStr::new(src.as_bytes()).unwrap();
    assert_eq!(&scs.as_bytes()[..5], &[0x30, 0x31, 0x32, 0x33, 0x00]);

    let src = b"abcd1234";
    let scs = SmallCStr::new(src).unwrap();
    assert_eq!(
        &scs.as_bytes()[..9],
        &[0x61, 0x62, 0x63, 0x64, 0x31, 0x32, 0x33, 0x34, 0x00]
    );
}

#[test]
fn test_contain_null() {
    let src = "\x30\x00\x32\x33";
    let scs = SmallCStr::new(src.as_bytes());
    assert_eq!(scs, None);

    let src = "\x30\x31\x32\x33\x00";
    let scs = SmallCStr::new(src.as_bytes());
    assert_eq!(scs, None);
}

#[test]
fn test_too_large() {
    let src = (0..SMALL_STR_SIZE).map(|_| 'a').collect::<String>();
    let scs = SmallCStr::new(src.as_bytes());
    assert_eq!(scs, None);

    let src = (0..SMALL_STR_SIZE + 10).map(|_| 'a').collect::<String>();
    let scs = SmallCStr::new(src.as_bytes());
    assert_eq!(scs, None);
}

#[test]
fn test_try_into() {
    let src = "\x30\x31\x32\x33";
    let scs: Result<SmallCStr, ()> = src.try_into();
    assert!(scs.is_ok());

    let src = (0..SMALL_STR_SIZE).map(|_| 'a').collect::<String>();
    let scs: Result<SmallCStr, ()> = src.as_str().try_into();
    assert!(scs.is_err());

    let src = (0..SMALL_STR_SIZE + 10).map(|_| 'a').collect::<String>();
    let scs: Result<SmallCStr, ()> = src.as_str().try_into();
    assert!(scs.is_err());
}

#[test]
fn largest_fitting_string_is_padded_with_one_terminator() {
    let src = "abcdefghijklmno";
    assert_eq!(src.len(), SMALL_STR_SIZE - 1);
    let scs = SmallCStr::new(src.as_bytes()).unwrap();
    assert_eq!(&scs.as_bytes()[..15], src.as_bytes());
    assert_eq!(scs.as_bytes()[15], 0);
}

#[test]
fn empty_string_is_all_zero() {
    let scs = SmallCStr::new(b"").unwrap();
    assert_eq!(scs.as_bytes(), &[0u8; SMALL_STR_SIZE]);
}

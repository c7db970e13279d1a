//! The surface towards plugins that are loaded at run time.

use cordis::contract::{
    abi_matches, buffer_text, produced, setup_failed, write_out, Greeter, ABI_VERSION, GREETING,
};

#[test]
fn versions_must_match() {
    assert_eq!(ABI_VERSION, 1);
    assert!(abi_matches(1));
    assert!(!abi_matches(0));
    assert!(!abi_matches(2));
}

#[test]
fn write_out_respects_the_buffer() {
    let mut buf = vec![9u8; 4];
    let mut len = 7usize;
    assert!(write_out(b"abc", &mut buf, &mut len));
    assert_eq!((buf.as_slice(), len), (b"abc\x09".as_slice(), 3));
    assert!(!write_out(b"abcde", &mut buf, &mut len));
    assert_eq!((buf.as_slice(), len), (b"abc\x09".as_slice(), 3));
    assert!(write_out(b"", &mut buf, &mut len));
    assert_eq!(len, 0);
}

#[test]
fn greeting_arrives() {
    let mut greeter = Greeter::setup();
    let mut buf = vec![0u8; 512];
    let mut len = 0usize;
    let status = greeter.produce(&mut buf, &mut len);
    assert_eq!(status, 0);
    assert_eq!(produced(status, &buf, len).unwrap(), "hello from a runtime-loaded dylib");
    assert_eq!(GREETING, "hello from a runtime-loaded dylib");

    let mut small = vec![0u8; 8];
    assert_eq!(greeter.produce(&mut small, &mut len), -1);
    assert_eq!(produced(-1, &small, 0).unwrap_err().render(), "plugin produce failed");
    assert_eq!(greeter.invocations, 2);

    assert!(Greeter::name(&mut buf, &mut len));
    assert_eq!(buffer_text(&buf, len), "greeter(dylib)");
    assert_eq!(setup_failed().render(), "plugin setup failed");
}

#[test]
fn bytes_that_are_no_text_are_replaced() {
    assert_eq!(buffer_text(&vec![b'a', 0xff, b'b'], 3), "a\u{fffd}b");
    assert_eq!(buffer_text(&"h\u{e9}".as_bytes().to_vec(), 3), "h\u{e9}");
    assert_eq!(buffer_text(&vec![b'a', b'b'], 1), "a");
}

use gage::uuid::{new_uuid, short_uuid};

#[test]
fn new_uuid_is_hyphenated_v4() {
    let id = new_uuid();
    assert_eq!(id.len(), 36);
    let b = id.as_bytes();
    for (i, c) in b.iter().enumerate() {
        if [8, 13, 18, 23].contains(&i) {
            assert_eq!(*c, b'-');
        } else {
            assert!(c.is_ascii_digit() || (b'a'..=b'f').contains(c));
        }
    }
    assert_eq!(b[14], b'4');
    assert!([b'8', b'9', b'a', b'b'].contains(&b[19]));
    assert_ne!(new_uuid(), id);
}

#[test]
fn short_uuid_takes_eight_bytes() {
    assert_eq!(short_uuid("aaaaaaaa-bbbb-cccc-dddd-eeeeeeeeeeee"), "aaaaaaaa");
    assert_eq!(short_uuid("abc"), "abc");
    assert_eq!(short_uuid("12345678"), "12345678");
    assert_eq!(short_uuid("1234567\u{e9}x"), "1234567\u{e9}x");
}

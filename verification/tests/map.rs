use tuwunel::map::adel;
use tuwunel::map::bdel;
use tuwunel::map::del;
use tuwunel::map::ArrayBuf;
use tuwunel::map::Buffer;
use tuwunel::map::KeyBuf;

#[test]
fn key_is_removed_as_it_is_written() {
    assert_eq!(del(b"user\xffroom"), b"user\xffroom");
    assert_eq!(del(b""), b"");
}

#[test]
fn key_of_a_fixed_size_is_removed_as_it_is_written() {
    assert_eq!(adel::<8>(&[1, 2, 3, 4, 5, 6, 7, 8]), [1, 2, 3, 4, 5, 6, 7, 8]);
    assert_eq!(adel::<8>(&[9]), [9]);
    assert!(adel::<0>(&[]).is_empty());
}

#[test]
fn all_that_the_buffer_holds_is_the_key() {
    let mut buf = KeyBuf::new();
    assert_eq!(bdel(b"ab", &mut buf), b"ab");
    assert_eq!(buf.as_bytes(), b"ab");
    assert_eq!(bdel(b"cd", &mut buf), b"abcd");
    let mut array = ArrayBuf::<4>::new();
    assert_eq!(bdel(b"xy", &mut array), b"xy");
    assert_eq!(bdel(b"z", &mut array), b"xyz");
}

#[test]
fn ways_to_delete_remove_the_same_key() {
    let key = [0u8, 255, 7];
    let mut buf = KeyBuf::new();
    assert_eq!(del(&key), adel::<3>(&key));
    assert_eq!(del(&key), bdel(&key, &mut buf));
}

#[test]
fn what_fits_is_written() {
    let mut buf = ArrayBuf::<4>::new();
    assert!(buf.has_room_for(b"abcd"));
    assert!(!buf.has_room_for(b"abcde"));
    assert!(KeyBuf::new().has_room_for(b"abcde"));
    assert!(buf.write_all(b"abc"));
    assert!(!buf.has_room_for(b"de"));
    assert!(!buf.write_all(b"defg"));
    assert_eq!(buf.as_bytes(), b"abcd");
    assert!(buf.write_all(b""));
    assert!(!buf.write_all(b"e"));
    assert_eq!(buf.as_bytes(), b"abcd");
}

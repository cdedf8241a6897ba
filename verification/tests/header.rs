use protociolla::Cookie;
use protociolla::Header;

#[test]
fn oneshot_fields() {
    let h = Header::oneshot(Some(2));
    assert_eq!(h.cookie, 0);
    assert_eq!(h.length, 2);
    assert_eq!(h.cookie(), None);
    assert_eq!(h.length(), 2);
    assert!(!h.has_more_packets());
    assert!(!h.has_more_payload());
}

#[test]
fn oneshot_open_length() {
    let h = Header::oneshot(None);
    assert_eq!(h.length, 0xffff);
    assert!(h.has_more_payload());
    assert_eq!(h.length(), 0xfffe);
}

#[test]
fn single_fields() {
    let h = Header::single(0x0042, Some(10));
    assert_eq!(h.cookie, 0x0042);
    assert_eq!(h.cookie(), Some(0x0042));
    assert!(!h.has_more_packets());
    assert!(!h.has_more_payload());
}

#[test]
fn single_masks_continuation_bit() {
    let h = Header::single(0x8042, Some(0));
    assert_eq!(h.cookie, 0x0042);
    assert!(!h.has_more_packets());
}

#[test]
fn stream_fields() {
    let h = Header::stream(0x0042, None);
    assert_eq!(h.cookie, 0x8042);
    assert_eq!(h.cookie(), Some(0x0042));
    assert!(h.has_more_packets());
    assert!(h.has_more_payload());
}

#[test]
fn length_caps_at_effective_maximum() {
    let h = Header { cookie: 0, length: 0xfffe };
    assert_eq!(h.length(), 0xfffe);
    assert!(!h.has_more_payload());
    let h = Header { cookie: 0, length: 0xffff };
    assert_eq!(h.length(), 0xfffe);
    assert!(h.has_more_payload());
}

#[test]
fn more_packets_tracks_bit_fifteen() {
    let h = Header { cookie: 0x8000, length: 0 };
    assert!(h.has_more_packets());
    assert_eq!(h.cookie(), None);
    let h = Header { cookie: 0x7fff, length: 0 };
    assert!(!h.has_more_packets());
    assert_eq!(h.cookie(), Some(0x7fff));
}

#[test]
fn cookie_classifications() {
    assert_eq!(Cookie::Oneshot, Cookie::Oneshot);
    assert_ne!(Cookie::Single(1), Cookie::Stream(1));
    assert_ne!(Cookie::Single(1), Cookie::Single(2));
}

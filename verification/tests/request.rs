use owfs::request::holds_nul;
use owfs::{finish, get, get_bytes, init, set_bytes, Error, Request};

#[test]
fn builders_make_the_requests() {
    assert_eq!(init("--fake 10,28"), Request::Open { params: String::from("--fake 10,28") });
    assert_eq!(get("/uncached/"), Request::Read { path: String::from("/uncached/") });
    assert_eq!(get_bytes("10.AAAA/memory"), Request::ReadBytes {
        path: String::from("10.AAAA/memory"),
    });
    assert_eq!(owfs::set("05.AABB/PIO", "1"), Request::Write {
        path: String::from("05.AABB/PIO"),
        value: String::from("1"),
    });
    assert_eq!(set_bytes("10.AAAA/memory", &[1, 0, 255]), Request::WriteBytes {
        path: String::from("10.AAAA/memory"),
        bytes: vec![1, 0, 255],
    });
    assert_eq!(finish(), Request::Close);
}

#[test]
fn holds_nul_finds_a_nul_anywhere() {
    assert!(!holds_nul(""));
    assert!(!holds_nul("10.AAAA/type"));
    assert!(holds_nul("\0"));
    assert!(holds_nul("\0abc"));
    assert!(holds_nul("ab\0c"));
    assert!(holds_nul("abc\0"));
    assert!(!holds_nul("0"));
}

#[test]
fn check_passes_plain_requests() {
    assert_eq!(init("--fake 10").check(), Ok(()));
    assert_eq!(get("10.AAAA/type").check(), Ok(()));
    assert_eq!(get("").check(), Ok(()));
    assert_eq!(get_bytes("10.AAAA/memory").check(), Ok(()));
    assert_eq!(owfs::set("05.AABB/PIO", "1").check(), Ok(()));
    assert_eq!(owfs::set("05.AABB/PIO", "").check(), Ok(()));
    assert_eq!(set_bytes("10.AAAA/memory", &[]).check(), Ok(()));
    assert_eq!(finish().check(), Ok(()));
}

#[test]
fn check_refuses_text_with_a_nul() {
    let encoding = Err(Error::new(0));
    assert_eq!(init("--fake\0 10").check(), encoding);
    assert_eq!(get("10.AAAA\0/type").check(), encoding);
    assert_eq!(get_bytes("\0").check(), encoding);
    assert_eq!(owfs::set("05.AABB\0/PIO", "1").check(), encoding);
    assert_eq!(owfs::set("05.AABB/PIO", "1\0").check(), encoding);
    assert_eq!(set_bytes("05.AABB\0/PIO", &[1]).check(), encoding);
}

#[test]
fn bytes_may_hold_a_nul() {
    assert_eq!(set_bytes("10.AAAA/memory", &[0, 0, 0]).check(), Ok(()));
}

#[test]
fn open_succeeds_on_status_zero_alone() {
    let request = init("--fake 10");
    assert_eq!(request.outcome(0), Ok(()));
    assert_eq!(request.outcome(-1), Err(Error::new(-1)));
    assert_eq!(request.outcome(1), Err(Error::new(1)));
    assert_eq!(request.outcome(-22), Err(Error::new(-22)));
}

#[test]
fn read_succeeds_on_any_status_from_zero() {
    for request in [get("10.AAAA/type"), get_bytes("10.AAAA/type")] {
        assert_eq!(request.outcome(0), Ok(()));
        assert_eq!(request.outcome(7), Ok(()));
        assert_eq!(request.outcome(isize::MAX), Ok(()));
        assert_eq!(request.outcome(-1), Err(Error::new(-1)));
        assert_eq!(request.outcome(-2), Err(Error::new(-2)));
        assert_eq!(request.outcome(isize::MIN), Err(Error::new(isize::MIN)));
    }
}

#[test]
fn text_write_counts_the_nul_behind_the_value() {
    let request = owfs::set("05.AABB/PIO", "123");
    assert_eq!(request.outcome(4), Ok(()));
    assert_eq!(request.outcome(3), Err(Error::new(-2)));
    assert_eq!(request.outcome(5), Err(Error::new(-2)));
    assert_eq!(request.outcome(0), Err(Error::new(-2)));
    assert_eq!(request.outcome(-1), Err(Error::new(-2)));
    assert_eq!(request.outcome(-4), Err(Error::new(-2)));
    assert_eq!(request.outcome(isize::MIN), Err(Error::new(-2)));
}

#[test]
fn text_write_counts_bytes_not_characters() {
    let request = owfs::set("10.AAAA/alias", "t\u{e9}mp\u{6e29}");
    assert_eq!(request.outcome(9), Ok(()));
    assert_eq!(request.outcome(6), Err(Error::new(-2)));
}

#[test]
fn empty_text_write_is_one_byte() {
    let request = owfs::set("05.AABB/PIO", "");
    assert_eq!(request.outcome(1), Ok(()));
    assert_eq!(request.outcome(0), Err(Error::new(-2)));
}

#[test]
fn short_write_is_a_failure() {
    let request = set_bytes("10.AAAA/memory", &[1, 2, 3, 4, 5, 6, 7, 8]);
    assert_eq!(request.outcome(8), Ok(()));
    for status in [0, 1, 7, 9, 16, -1, -8, isize::MAX, isize::MIN] {
        assert_eq!(request.outcome(status), Err(Error::new(-2)));
    }
}

#[test]
fn empty_bytes_write_is_done_with_status_zero() {
    let request = set_bytes("10.AAAA/memory", &[]);
    assert_eq!(request.outcome(0), Ok(()));
    assert_eq!(request.outcome(1), Err(Error::new(-2)));
    assert_eq!(request.outcome(-1), Err(Error::new(-2)));
}

#[test]
fn close_always_succeeds() {
    assert_eq!(finish().outcome(0), Ok(()));
    assert_eq!(finish().outcome(-1), Ok(()));
}

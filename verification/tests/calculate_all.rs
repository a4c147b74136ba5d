use ykoath::calculate::Response;
use ykoath::calculate_all::{data, request, Entries};
use ykoath::tlv::push;
use ykoath::{BulkResponseData, Error};

fn entry(name: &[u8], tag: u8, value: &[u8]) -> Vec<u8> {
    let mut buf = Vec::new();
    push(&mut buf, 0x71, name);
    push(&mut buf, tag, value);
    buf
}

#[test]
fn request_is_header_and_challenge() {
    let mut buf = vec![1, 2, 3];
    request(&mut buf, true, 56_666_666_i64);
    assert_eq!(buf, [0x00, 0xa4, 0x00, 0x01, 0x00, 0x74, 8, 0, 0, 0, 0, 3, 0x60, 0xaa, 0x2a]);
    request(&mut buf, false, &[9, 8][..]);
    assert_eq!(buf, [0x00, 0xa4, 0x00, 0x00, 0x00, 0x74, 2, 9, 8]);
}

#[test]
fn an_empty_response_has_no_entries() {
    let mut entries = Entries::new(true, &[]);
    assert!(entries.next().is_none());
    assert!(entries.next().is_none());
    assert_eq!(Entries::new(false, &[]).collect().unwrap().len(), 0);
}

#[test]
fn one_pair_is_one_entry() {
    let buf = entry(b"alice", 0x76, &[6, 0, 0, 4, 0xd2]);
    let mut entries = Entries::new(true, &buf);
    let first = entries.next().unwrap().unwrap();
    assert_eq!(first.name, "alice");
    assert_eq!(first.data, BulkResponseData::Totp(Response { digits: 6, response: 1234 }));
    assert!(entries.next().is_none());
    assert!(entries.next().is_none());
}

#[test]
fn entries_come_in_the_order_of_the_response() {
    let mut buf = entry(b"alice", 0x76, &[6, 0, 0, 4, 0xd2]);
    buf.extend(entry(b"bob", 0x77, &[]));
    buf.extend(entry("zo\u{eb}".as_bytes(), 0x7c, &[]));
    buf.extend(entry(b"", 0x76, &[8, 0, 0, 0, 1]));
    let mut entries = Entries::new(true, &buf);
    let first = entries.next().unwrap().unwrap();
    assert_eq!((first.name, first.data), (
        "alice",
        BulkResponseData::Totp(Response { digits: 6, response: 1234 }),
    ));
    let second = entries.next().unwrap().unwrap();
    assert_eq!((second.name, second.data), ("bob", BulkResponseData::Hotp));
    let third = entries.next().unwrap().unwrap();
    assert_eq!((third.name, third.data), ("zo\u{eb}", BulkResponseData::Touch));
    let fourth = entries.next().unwrap().unwrap();
    assert_eq!((fourth.name, fourth.data), (
        "",
        BulkResponseData::Totp(Response { digits: 8, response: 1 }),
    ));
    assert!(entries.next().is_none());

    let all = Entries::new(true, &buf).collect().unwrap();
    let names: Vec<&str> = all.iter().map(|found| found.name).collect();
    assert_eq!(names, ["alice", "bob", "zo\u{eb}", ""]);
}

#[test]
fn a_full_response_is_read_where_it_was_asked_for() {
    let buf = entry(b"a", 0x75, &[6, 0, 0, 4, 0xd2, 1, 2, 3]);
    let found = Entries::new(false, &buf).next().unwrap().unwrap();
    assert_eq!(found.data, BulkResponseData::Totp(Response { digits: 6, response: 1234 }));
    let refused = Entries::new(true, &buf).next().unwrap();
    assert_eq!(refused.unwrap_err(), Error::UnexpectedValue(0x75));
}

#[test]
fn an_unknown_second_tag_is_refused_after_earlier_entries_came() {
    let mut buf = entry(b"alice", 0x77, &[]);
    buf.extend(entry(b"bob", 0x7a, &[1]));
    let mut entries = Entries::new(true, &buf);
    assert_eq!(entries.next().unwrap().unwrap().name, "alice");
    assert_eq!(entries.next().unwrap().unwrap_err(), Error::UnexpectedValue(0x7a));
    assert_eq!(Entries::new(true, &buf).collect().unwrap_err(), Error::UnexpectedValue(0x7a));
}

#[test]
fn an_entry_that_does_not_start_with_a_name_is_refused() {
    let buf = [0x76, 5, 6, 0, 0, 4, 0xd2];
    let mut entries = Entries::new(true, &buf);
    assert_eq!(entries.next().unwrap().unwrap_err(), Error::UnexpectedValue(0x76));
}

#[test]
fn a_name_that_is_not_utf8_is_refused() {
    let buf = entry(&[b'a', 0xff, b'b'], 0x77, &[]);
    let mut entries = Entries::new(true, &buf);
    assert_eq!(entries.next().unwrap().unwrap_err(), Error::Utf8);
    for name in [&[0xc0, 0x80][..], &[0xed, 0xa0, 0x80], &[0xf4, 0x90, 0x80, 0x80], &[0xe2, 0x82]] {
        let buf = entry(name, 0x7c, &[]);
        assert_eq!(Entries::new(true, &buf).next().unwrap().unwrap_err(), Error::Utf8);
    }
}

#[test]
fn a_name_in_utf8_is_text() {
    let names = [
        "",
        "a",
        "\u{7f}",
        "\u{80}",
        "\u{7ff}",
        "\u{800}",
        "\u{ffff}",
        "\u{10000}",
        "\u{10ffff}",
        "issuer:\u{e9}t\u{e9}",
    ];
    for name in names {
        let buf = entry(name.as_bytes(), 0x7c, &[]);
        assert_eq!(Entries::new(true, &buf).next().unwrap().unwrap().name, name);
    }
}

#[test]
fn a_broken_response_is_reported_before_a_broken_name() {
    let buf = entry(&[0xff], 0x76, &[6, 0, 0]);
    let mut entries = Entries::new(true, &buf);
    assert_eq!(entries.next().unwrap().unwrap_err(), Error::InsufficientData);
}

#[test]
fn a_truncated_response_is_insufficient() {
    let whole = entry(b"alice", 0x76, &[6, 0, 0, 4, 0xd2]);
    for cut in 1..whole.len() {
        let mut entries = Entries::new(true, &whole[..cut]);
        assert_eq!(entries.next().unwrap().unwrap_err(), Error::InsufficientData, "cut {cut}");
    }
}

#[test]
fn collect_stops_at_the_first_failure() {
    let mut buf = entry(b"alice", 0x77, &[]);
    buf.extend([0x71, 9, b'b']);
    assert_eq!(Entries::new(true, &buf).collect().unwrap_err(), Error::InsufficientData);
}

#[test]
fn data_goes_by_the_tag() {
    let value = [6, 0, 0, 4, 0xd2];
    let totp = BulkResponseData::Totp(Response { digits: 6, response: 1234 });
    assert_eq!(data(0x75, &value), Ok(totp));
    assert_eq!(data(0x76, &value), Ok(totp));
    assert_eq!(data(0x76, &value[..4]), Err(Error::InsufficientData));
    assert_eq!(data(0x77, &value), Ok(BulkResponseData::Hotp));
    assert_eq!(data(0x7c, &[]), Ok(BulkResponseData::Touch));
    assert_eq!(data(0x71, &value), Err(Error::UnexpectedValue(0x71)));
}

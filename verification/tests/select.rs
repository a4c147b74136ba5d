use ykoath::select::{algorithm, parse, request};
use ykoath::{Algorithm, Error};

#[test]
fn request_names_the_oath_application() {
    let mut buf = vec![9; 40];
    request(&mut buf);
    assert_eq!(buf, [0x00, 0xa4, 0x04, 0x00, 0x00, 0xa0, 0x00, 0x00, 0x05, 0x27, 0x21, 0x01]);
}

#[test]
fn a_response_without_authentication_has_version_and_name() {
    let response = [0x79, 3, 5, 4, 3, 0x71, 8, 1, 2, 3, 4, 5, 6, 7, 8];
    let found = parse(&response).unwrap();
    assert_eq!(found.version, [5, 4, 3]);
    assert_eq!(found.name, [1, 2, 3, 4, 5, 6, 7, 8]);
    assert!(found.inner.is_none());
}

#[test]
fn a_response_with_authentication_has_challenge_and_algorithm() {
    for (byte, expected) in
        [(1, Algorithm::HmacSha1), (2, Algorithm::HmacSha256), (3, Algorithm::HmacSha512)]
    {
        let response = [0x79, 3, 5, 4, 3, 0x71, 2, 0xaa, 0xbb, 0x74, 4, 9, 8, 7, 6, 0x7b, 1, byte];
        let found = parse(&response).unwrap();
        assert_eq!(found.version, [5, 4, 3]);
        assert_eq!(found.name, [0xaa, 0xbb]);
        let inner = found.inner.unwrap();
        assert_eq!(inner.challenge, [9, 8, 7, 6]);
        assert_eq!(inner.algorithm, expected);
    }
}

#[test]
fn bytes_behind_the_algorithm_are_not_looked_at() {
    let response = [0x79, 0, 0x71, 0, 0x74, 0, 0x7b, 1, 2, 0xde, 0xad];
    let found = parse(&response).unwrap();
    assert!(found.version.is_empty());
    assert!(found.name.is_empty());
    let inner = found.inner.unwrap();
    assert!(inner.challenge.is_empty());
    assert_eq!(inner.algorithm, Algorithm::HmacSha256);
}

#[test]
fn an_unknown_algorithm_is_refused_by_its_value() {
    let response = [0x79, 0, 0x71, 0, 0x74, 0, 0x7b, 1, 4];
    assert_eq!(parse(&response).unwrap_err(), Error::UnexpectedValue(4));
    let response = [0x79, 0, 0x71, 0, 0x74, 0, 0x7b, 1, 0];
    assert_eq!(parse(&response).unwrap_err(), Error::UnexpectedValue(0));
}

#[test]
fn an_algorithm_of_another_length_is_refused_by_the_length() {
    let response = [0x79, 0, 0x71, 0, 0x74, 0, 0x7b, 2, 1, 1];
    assert_eq!(parse(&response).unwrap_err(), Error::UnexpectedValue(2));
    let response = [0x79, 0, 0x71, 0, 0x74, 0, 0x7b, 0];
    assert_eq!(parse(&response).unwrap_err(), Error::UnexpectedValue(0));
}

#[test]
fn algorithm_reads_one_byte() {
    assert_eq!(algorithm(&[1]), Ok(Algorithm::HmacSha1));
    assert_eq!(algorithm(&[2]), Ok(Algorithm::HmacSha256));
    assert_eq!(algorithm(&[3]), Ok(Algorithm::HmacSha512));
    assert_eq!(algorithm(&[0x7b]), Err(Error::UnexpectedValue(0x7b)));
    assert_eq!(algorithm(&[]), Err(Error::UnexpectedValue(0)));
    assert_eq!(algorithm(&[1, 2, 3]), Err(Error::UnexpectedValue(3)));
    assert_eq!(algorithm(&[0; 258]), Err(Error::UnexpectedValue(2)));
}

#[test]
fn entries_out_of_order_are_refused() {
    let response = [0x71, 1, 1, 0x79, 1, 1];
    assert_eq!(parse(&response).unwrap_err(), Error::UnexpectedValue(0x71));
    let response = [0x79, 1, 1, 0x79, 1, 1];
    assert_eq!(parse(&response).unwrap_err(), Error::UnexpectedValue(0x79));
    let response = [0x79, 1, 1, 0x71, 1, 1, 0x7b, 1, 1];
    assert_eq!(parse(&response).unwrap_err(), Error::UnexpectedValue(0x7b));
    let response = [0x79, 1, 1, 0x71, 1, 1, 0x74, 1, 1, 0x74, 1, 1];
    assert_eq!(parse(&response).unwrap_err(), Error::UnexpectedValue(0x74));
}

#[test]
fn a_truncated_select_response_is_insufficient() {
    let whole = [0x79, 3, 5, 4, 3, 0x71, 2, 0xaa, 0xbb, 0x74, 4, 9, 8, 7, 6, 0x7b, 1, 1];
    for cut in 0..whole.len() {
        if cut == 9 {
            assert!(parse(&whole[..cut]).unwrap().inner.is_none());
        } else {
            assert_eq!(parse(&whole[..cut]).unwrap_err(), Error::InsufficientData, "cut {cut}");
        }
    }
    assert!(parse(&whole).is_ok());
}

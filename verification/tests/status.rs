use ykoath::status::Status;
use ykoath::Error;

#[test]
fn success_is_0x9000_alone() {
    assert_eq!(Status::from_code(0x9000), Status::Success);
    let successes = (0..=u16::MAX).filter(|&code| Status::from_code(code) == Status::Success);
    assert_eq!(successes.count(), 1);
}

#[test]
fn continue_is_0x61_and_any_low_byte() {
    for code in 0..=u16::MAX {
        let pending = Status::from_code(code) == Status::ContinuePending;
        assert_eq!(pending, (0x6100..=0x61ff).contains(&code), "code {code:#06x}");
    }
}

#[test]
fn known_failures_map_one_to_one() {
    assert_eq!(Status::from_code(0x6a84), Status::NoSpace);
    assert_eq!(Status::from_code(0x6984), Status::NoSuchObject);
    assert_eq!(Status::from_code(0x6982), Status::AuthRequired);
    assert_eq!(Status::from_code(0x6a80), Status::WrongSyntax);
    assert_eq!(Status::from_code(0x6581), Status::GenericError);
}

#[test]
fn every_other_code_is_unknown_and_kept() {
    let known = [0x9000u16, 0x6a84, 0x6984, 0x6982, 0x6a80, 0x6581];
    for code in 0..=u16::MAX {
        if known.contains(&code) || (0x6100..=0x61ff).contains(&code) {
            continue;
        }
        assert_eq!(Status::from_code(code), Status::UnknownCode(code));
    }
    assert_eq!(Status::from_code(0x0000), Status::UnknownCode(0x0000));
    assert_eq!(Status::from_code(0x6100 - 1), Status::UnknownCode(0x60ff));
    assert_eq!(Status::from_code(0x6200), Status::UnknownCode(0x6200));
    assert_eq!(Status::from_code(0xffff), Status::UnknownCode(0xffff));
}

#[test]
fn a_status_is_a_failure_unless_it_is_success_or_continue() {
    assert_eq!(Status::Success.error(), None);
    assert_eq!(Status::ContinuePending.error(), None);
    assert_eq!(Status::NoSpace.error(), Some(Error::NoSpace));
    assert_eq!(Status::NoSuchObject.error(), Some(Error::NoSuchObject));
    assert_eq!(Status::AuthRequired.error(), Some(Error::AuthRequired));
    assert_eq!(Status::WrongSyntax.error(), Some(Error::WrongSyntax));
    assert_eq!(Status::GenericError.error(), Some(Error::GenericError));
    assert_eq!(Status::UnknownCode(0x6f00).error(), Some(Error::UnknownCode(0x6f00)));
}

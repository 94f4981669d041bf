use mobi::error::PDBError;
use mobi::timestamp::{
    from_palm_timestamp, now_timestamp, to_palm_timestamp, Timestamp, PALM_EPOCH_OFFSET,
};

#[test]
fn palm_round_trip_from_unix_epoch() {
    let t = Timestamp { seconds: 0 };
    let palm = to_palm_timestamp(t).expect("after the Palm epoch");
    assert_eq!(palm, 2082844800);
    assert_eq!(from_palm_timestamp(palm), t);
}

#[test]
fn palm_round_trip_from_palm_representation() {
    for palm in [0u32, 1, 2082844800, u32::MAX] {
        let t = from_palm_timestamp(palm);
        assert_eq!(to_palm_timestamp(t), Ok(palm));
    }
}

#[test]
fn palm_epoch_is_seconds_zero() {
    let epoch = from_palm_timestamp(0);
    assert_eq!(epoch.seconds, -PALM_EPOCH_OFFSET);
}

#[test]
fn to_palm_fails_before_epoch() {
    let before = Timestamp { seconds: -PALM_EPOCH_OFFSET - 1 };
    assert_eq!(to_palm_timestamp(before), Err(PDBError::TimestampOutOfRange));
}

#[test]
fn to_palm_fails_past_thirty_two_bits() {
    let after = Timestamp { seconds: u32::MAX as i64 - PALM_EPOCH_OFFSET + 1 };
    assert_eq!(to_palm_timestamp(after), Err(PDBError::TimestampOutOfRange));
}

#[test]
fn now_is_after_the_palm_epoch() {
    // The clock wrapper must hand back the real current time, which is
    // well after both the Palm and the Unix epoch.
    let now = now_timestamp();
    assert!(now.seconds > 0);
    assert!(to_palm_timestamp(now).is_ok());
}

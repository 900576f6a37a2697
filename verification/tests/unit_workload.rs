use transdb::client::GetResult;
use transdb::errors::TranDbError;
use transdb::history::is_error;
use transdb::history::OpOutcome;
use transdb::workload::{
    generate_value, outcome_of_delete, outcome_of_get, outcome_of_put, Op, WorkloadProfile,
};

#[test]
fn test_from_name_roundtrip() {
    for (name, expected) in [
        ("read-heavy", WorkloadProfile::ReadHeavy),
        ("balanced", WorkloadProfile::Balanced),
        ("write-heavy", WorkloadProfile::WriteHeavy),
        ("put-only", WorkloadProfile::PutOnly),
    ] {
        let parsed = WorkloadProfile::from_name(name);
        assert_eq!(parsed, Some(expected), "from_name({name:?}) failed");
        assert_eq!(expected.as_name(), name, "as_name() mismatch for {name:?}");
    }
    assert!(WorkloadProfile::from_name("unknown").is_none());
}

#[test]
fn test_profile_boundaries() {
    // ReadHeavy: GET rolls 0–79, PUT rolls 80–99
    assert_eq!(WorkloadProfile::ReadHeavy.op_for_roll(0), Op::Get);
    assert_eq!(WorkloadProfile::ReadHeavy.op_for_roll(79), Op::Get);
    assert_eq!(WorkloadProfile::ReadHeavy.op_for_roll(80), Op::Put);
    assert_eq!(WorkloadProfile::ReadHeavy.op_for_roll(99), Op::Put);

    // Balanced: GET 0–49, PUT 50–94, DELETE 95–99
    assert_eq!(WorkloadProfile::Balanced.op_for_roll(0), Op::Get);
    assert_eq!(WorkloadProfile::Balanced.op_for_roll(49), Op::Get);
    assert_eq!(WorkloadProfile::Balanced.op_for_roll(50), Op::Put);
    assert_eq!(WorkloadProfile::Balanced.op_for_roll(94), Op::Put);
    assert_eq!(WorkloadProfile::Balanced.op_for_roll(95), Op::Delete);
    assert_eq!(WorkloadProfile::Balanced.op_for_roll(99), Op::Delete);

    // WriteHeavy: GET 0–19, PUT 20–94, DELETE 95–99
    assert_eq!(WorkloadProfile::WriteHeavy.op_for_roll(0), Op::Get);
    assert_eq!(WorkloadProfile::WriteHeavy.op_for_roll(19), Op::Get);
    assert_eq!(WorkloadProfile::WriteHeavy.op_for_roll(20), Op::Put);
    assert_eq!(WorkloadProfile::WriteHeavy.op_for_roll(94), Op::Put);
    assert_eq!(WorkloadProfile::WriteHeavy.op_for_roll(95), Op::Delete);
    assert_eq!(WorkloadProfile::WriteHeavy.op_for_roll(99), Op::Delete);

    // PutOnly: every roll is a PUT
    assert_eq!(WorkloadProfile::PutOnly.op_for_roll(0), Op::Put);
    assert_eq!(WorkloadProfile::PutOnly.op_for_roll(99), Op::Put);
}

#[test]
fn test_sample_respects_profile() {
    // PutOnly admits no other operation whatever the roll; the others may
    // draw anything within their mix.
    for _ in 0..20 {
        assert_eq!(WorkloadProfile::PutOnly.sample(), Op::Put);
    }
    for _ in 0..20 {
        let op = WorkloadProfile::ReadHeavy.sample();
        assert!(op == Op::Get || op == Op::Put);
    }
}

#[test]
fn test_generate_value_and_is_error() {
    // generate_value: length must always be in 8..=1024 and content must be
    // non-trivially varied.
    let mut all_same = true;
    let mut prev: Option<Vec<u8>> = None;
    for _ in 0..50 {
        let v = generate_value();
        assert!(v.len() >= 8, "value too short: {}", v.len());
        assert!(v.len() <= 1024, "value too long: {}", v.len());
        if let Some(ref p) = prev {
            if p != &v {
                all_same = false;
            }
        }
        prev = Some(v);
    }
    assert!(!all_same, "generate_value returned identical bytes every time");

    // is_error: only OpOutcome::Error should return true.
    assert!(is_error(&OpOutcome::Error));
    assert!(!is_error(&OpOutcome::NotFound));
    assert!(!is_error(&OpOutcome::DeleteOk { version: 1 }));
    assert!(!is_error(&OpOutcome::GetOk { version: 1, value: vec![1] }));
    assert!(!is_error(&OpOutcome::PutOk { version: 1, value: vec![1] }));
}

#[test]
fn test_outcome_classification() {
    let ok = outcome_of_get(Ok(GetResult { value: b"v".to_vec(), version: 4, expired: false }));
    assert!(matches!(ok, OpOutcome::GetOk { version: 4, ref value } if value == b"v"));
    let missing = outcome_of_get(Err(TranDbError::KeyNotFound("k".to_string())));
    assert!(matches!(missing, OpOutcome::NotFound));
    let err = outcome_of_get(Err(TranDbError::NetworkError("down".to_string())));
    assert!(matches!(err, OpOutcome::Error));

    let put = outcome_of_put(Ok(7), b"w".to_vec());
    assert!(matches!(put, OpOutcome::PutOk { version: 7, ref value } if value == b"w"));
    let put_err = outcome_of_put(Err(TranDbError::MissingETag), b"w".to_vec());
    assert!(matches!(put_err, OpOutcome::Error));

    assert!(matches!(outcome_of_delete(Ok(Some(9))), OpOutcome::DeleteOk { version: 9 }));
    assert!(matches!(outcome_of_delete(Ok(None)), OpOutcome::NotFound));
    assert!(matches!(
        outcome_of_delete(Err(TranDbError::HttpError(503, "busy".to_string()))),
        OpOutcome::Error
    ));
}

use mutare::data::{AgtData, AgtError, FrameError, SimData};
use mutare::units::UNIT;
use mutare::utils::{NumRange, OutOfRange, VecError};

#[test]
fn agents_are_checked_when_they_are_made() {
    let agt = AgtData::new(1, vec![UNIT / 4, 3 * (UNIT / 4)], 2).unwrap();
    assert_eq!(agt.phe(), 1);
    assert_eq!(agt.prob_phe(), &vec![250_000_000, 750_000_000]);
    assert_eq!(
        AgtData::new(2, vec![UNIT / 2, UNIT / 2], 2),
        Err(AgtError::Phe(OutOfRange { num: 2, range: NumRange::half_open(0, 2) }))
    );
    assert_eq!(
        AgtData::new(0, vec![UNIT], 2),
        Err(AgtError::ProbPhe(VecError::Length { expected: 2, found: 1 }))
    );
    assert_eq!(
        AgtData::new(0, vec![UNIT / 2, UNIT], 2),
        Err(AgtError::ProbPhe(VecError::NotNormalized { sum: 1_500_000_000 }))
    );
    assert!(matches!(AgtData::new(0, vec![], 0), Err(AgtError::Phe(_))));
}

#[test]
fn new_data_holds_no_agents() {
    let data = SimData::new(3, 256);
    assert_eq!(data.env, 3);
    assert!(data.agt_vec.is_empty());
    assert_eq!(data.n_agt_diff, 0);
}

#[test]
fn a_frame_is_the_length_and_then_the_value() {
    let mut written = vec![0xAA];
    assert_eq!(SimData::write_frame(&vec![1, 2, 3], &mut written), Ok(()));
    assert_eq!(written, vec![0xAA, 3, 0, 0, 0, 1, 2, 3]);
    assert_eq!(SimData::write_frame(&vec![], &mut written), Ok(()));
    assert_eq!(written, vec![0xAA, 3, 0, 0, 0, 1, 2, 3, 0, 0, 0, 0]);
    let long = vec![7u8; 258];
    let mut written = Vec::new();
    SimData::write_frame(&long, &mut written).unwrap();
    assert_eq!(&written[..4], &[2, 1, 0, 0]);
    assert_eq!(&written[4..], &long[..]);
}

#[test]
fn frames_are_read_in_the_order_in_which_they_were_written() {
    let values = [vec![1u8, 2, 3], vec![], vec![9u8; 300], vec![0]];
    let mut written = Vec::new();
    for value in &values {
        SimData::write_frame(value, &mut written).unwrap();
    }
    let mut pos = 0;
    for value in &values {
        let (read, next) = SimData::read_frame(&written, pos).unwrap();
        assert_eq!(&read, value);
        assert_eq!(next, pos + 4 + value.len());
        pos = next;
    }
    assert_eq!(pos, written.len());
    assert_eq!(SimData::read_frame(&written, pos), Err(FrameError::EndOfStream));
}

#[test]
fn the_end_is_told_from_a_truncated_frame() {
    let mut written = Vec::new();
    SimData::write_frame(&vec![1, 2, 3, 4, 5], &mut written).unwrap();
    assert_eq!(SimData::read_frame(&vec![], 0), Err(FrameError::EndOfStream));
    assert_eq!(SimData::read_frame(&written, 9), Err(FrameError::EndOfStream));
    assert_eq!(SimData::read_frame(&written, 100), Err(FrameError::EndOfStream));
    assert_eq!(
        SimData::read_frame(&written[..3].to_vec(), 0),
        Err(FrameError::TruncatedPrefix { found: 3 })
    );
    assert_eq!(
        SimData::read_frame(&written[..4].to_vec(), 0),
        Err(FrameError::TruncatedValue { expected: 5, found: 0 })
    );
    assert_eq!(
        SimData::read_frame(&written[..8].to_vec(), 0),
        Err(FrameError::TruncatedValue { expected: 5, found: 4 })
    );
    assert_eq!(
        SimData::read_frame(&vec![0xFF, 0xFF, 0xFF, 0xFF, 1], 0),
        Err(FrameError::TruncatedValue { expected: u32::MAX, found: 1 })
    );
    assert_eq!(SimData::read_frame(&written, 0), Ok((vec![1, 2, 3, 4, 5], 9)));
}

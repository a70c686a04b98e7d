use exonum::encoding::{check_segment, write_segment, Error, StructWithTwoSegments};

#[test]
fn correct_encoding_struct() {
    let dat: Vec<u8> = vec![
        8u8, 0, 0, 0, 18, 0, 0, 0, 16, 0, 0, 0, 1, 0, 0, 0, 17, 0, 0, 0, 1, 0, 0, 0, 1, 2,
    ];
    let test = vec![16u8, 0, 0, 0, 1, 0, 0, 0, 17, 0, 0, 0, 1, 0, 0, 0, 1, 2];
    let mut buffer = vec![0; 8];
    write_segment(&test, &mut buffer, 0);
    assert_eq!(buffer, dat);
    StructWithTwoSegments::check(&dat, 0, 8).unwrap();
    let struct_ = StructWithTwoSegments::read(&dat, 0, 8).unwrap();
    assert_eq!(struct_.first(), &[1u8]);
    assert_eq!(struct_.second(), &[2u8]);
}

#[test]
#[should_panic(expected = "OverlappingSegment")]
fn overlap_segments() {
    let test = vec![16u8, 0, 0, 0, 1, 0, 0, 0, 16, 0, 0, 0, 1, 0, 0, 0, 1, 2];
    let mut buffer = vec![0; 8];
    write_segment(&test, &mut buffer, 0);
    StructWithTwoSegments::check(&buffer, 0, 8).unwrap();
}

#[test]
#[should_panic(expected = "SpaceBetweenSegments")]
fn segments_has_spaces_between() {
    let test = vec![
        16u8, 0, 0, 0, 1, 0, 0, 0, 18, 0, 0, 0, 1, 0, 0, 0, // <-- link after space
        1, 0, // <-- this is space one
        2,
    ];
    let mut buffer = vec![0; 8];
    write_segment(&test, &mut buffer, 0);
    StructWithTwoSegments::check(&buffer, 0, 8).unwrap();
}

#[test]
fn faults_of_the_layout() {
    assert_eq!(
        check_segment(&[0; 7], 0, 8),
        Err(Error::UnexpectedlyShortPayload { actual_size: 7, minimum_size: 8 })
    );
    assert_eq!(check_segment(&[9, 0, 0, 0, 0, 0, 0, 0], 0, 8), Ok(8));
    assert_eq!(
        check_segment(&[8, 0, 0, 0, 1, 0, 0, 0], 0, 8),
        Err(Error::IncorrectSegmentReference { position: 0, value: 9 })
    );
    assert_eq!(check_segment(&[8, 0, 0, 0, 1, 0, 0, 0, 5], 0, 8), Ok(9));
    assert_eq!(
        check_segment(&[7, 0, 0, 0, 1, 0, 0, 0, 5], 0, 8),
        Err(Error::OverlappingSegment { last_end: 8, start: 7 })
    );
    assert_eq!(
        check_segment(&[9, 0, 0, 0, 1, 0, 0, 0, 5, 5], 0, 8),
        Err(Error::SpaceBetweenSegments { last_end: 8, start: 9 })
    );
    let mut long = vec![0u8; 8];
    write_segment(&[16, 0, 0, 0, 1, 0, 0, 0, 17, 0, 0, 0, 1, 0, 0, 0, 1, 2, 3], &mut long, 0);
    assert_eq!(
        StructWithTwoSegments::check(&long, 0, 8),
        Err(Error::IncorrectStructSize { actual: 19, expected: 18 })
    );
    let mut short = vec![0u8; 8];
    write_segment(&[16, 0, 0, 0, 1], &mut short, 0);
    assert_eq!(
        StructWithTwoSegments::read(&short, 0, 8),
        Err(Error::UnexpectedlyShortPayload { actual_size: 5, minimum_size: 8 })
    );
    let value = StructWithTwoSegments::new(&[1, 2], &[]);
    assert_eq!(value.first(), &[1u8, 2]);
    assert!(value.second().is_empty());
    let mut empty = vec![0u8; 8];
    write_segment(&[16, 0, 0, 0, 0, 0, 0, 0, 16, 0, 0, 0, 0, 0, 0, 0], &mut empty, 0);
    assert_eq!(StructWithTwoSegments::read(&empty, 0, 8), Ok(StructWithTwoSegments::new(&[], &[])));
}

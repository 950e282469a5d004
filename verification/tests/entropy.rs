use exifsd::segment_data;

#[test]
fn entropy_boundary_before_end_marker() {
    let input = [0x01, 0xFF, 0x00, 0x02, 0xFF, 0xFF, 0xD9];
    let (data, end) = segment_data(&input, 0);
    assert_eq!(data, vec![0x01, 0xFF, 0x00, 0x02, 0xFF]);
    // the end marker `FF D9` stays unconsumed
    assert_eq!(end, 5);
    assert_eq!(&input[end..], &[0xFF, 0xD9]);
}

#[test]
fn entropy_boundary_after_fill() {
    let input = [0x01, 0xFF, 0x00, 0x02, 0xFF, 0xFF, 0x00];
    let (data, end) = segment_data(&input, 0);
    assert_eq!(data, vec![0x01, 0xFF, 0x00, 0x02, 0xFF]);
    // `FF 00` after the fill byte stays unconsumed
    assert_eq!(end, 5);
    assert_eq!(&input[end..], &[0xFF, 0x00]);
}

#[test]
fn entropy_run_may_be_empty() {
    let (data, end) = segment_data(&[0xFF, 0xD9], 0);
    assert_eq!(data, Vec::<u8>::new());
    assert_eq!(end, 0);
}

#[test]
fn entropy_consumes_plain_bytes_to_the_end() {
    let (data, end) = segment_data(&[0x01, 0x02, 0x03], 0);
    assert_eq!(data, vec![0x01, 0x02, 0x03]);
    assert_eq!(end, 3);
}

#[test]
fn entropy_keeps_stuffed_bytes_verbatim() {
    let (data, end) = segment_data(&[0xFF, 0x00, 0xFF, 0x00, 0x04], 0);
    assert_eq!(data, vec![0xFF, 0x00, 0xFF, 0x00, 0x04]);
    assert_eq!(end, 5);
}

#[test]
fn entropy_fill_run_keeps_last_marker_byte() {
    // of three fill bytes, the last pairs with the next byte as a marker
    let input = [0xFF, 0xFF, 0xFF, 0x41];
    let (data, end) = segment_data(&input, 0);
    assert_eq!(data, vec![0xFF, 0xFF]);
    assert_eq!(end, 2);
    assert_eq!(&input[end..], &[0xFF, 0x41]);
}

#[test]
fn entropy_stops_before_reset_marker() {
    // a Reset marker inside real entropy data is indistinguishable from a
    // terminating marker here and ends the run early: a known limitation,
    // kept as it is
    let input = [0x01, 0xFF, 0xD0, 0x02];
    let (data, end) = segment_data(&input, 0);
    assert_eq!(data, vec![0x01]);
    assert_eq!(end, 1);
    assert_eq!(&input[end..], &[0xFF, 0xD0, 0x02]);
}

#[test]
fn entropy_starts_mid_buffer() {
    let input = [0xAA, 0xBB, 0x05, 0xFF, 0xD9];
    let (data, end) = segment_data(&input, 2);
    assert_eq!(data, vec![0x05]);
    assert_eq!(end, 3);
}

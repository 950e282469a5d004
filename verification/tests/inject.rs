use exifsd::Jpeg;
use exifsd::JpegData;
use exifsd::MarkedData;

fn encode(jpeg: &Jpeg) -> Vec<u8> {
    let mut out = vec![];
    jpeg.write(&mut out);
    out
}

fn parse(bytes: &[u8]) -> Jpeg {
    Jpeg::parser(bytes).unwrap().0
}

#[test]
fn inject_present_inserts_first() {
    // source holds the application marker 0xE1 with payload DE AD
    let src = parse(&[0xFF, 0xD8, 0xFF, 0xE1, 0x00, 0x04, 0xDE, 0xAD, 0xFF, 0xD9]);
    let mut dst = parse(&[0xFF, 0xD8, 0xFF, 0xE0, 0x00, 0x02, 0xFF, 0xD9]);

    assert!(dst.inject_marker_from(&src, 0xE1));
    assert_eq!(
        encode(&dst),
        vec![
            0xFF, 0xD8, // Start of Image
            0xFF, 0xE1, 0x00, 0x04, 0xDE, 0xAD, // the copied block, first
            0xFF, 0xE0, 0x00, 0x02, // the block that was already there
            0xFF, 0xD9, // End of Image
        ]
    );
}

#[test]
fn inject_replaces_in_place() {
    let src = parse(&[0xFF, 0xD8, 0xFF, 0xE1, 0x00, 0x04, 0xDE, 0xAD, 0xFF, 0xD9]);
    // destination already holds 0xE1, after another block
    let mut dst = parse(&[
        0xFF, 0xD8, 0xFF, 0xE0, 0x00, 0x02, 0xFF, 0xE1, 0x00, 0x03, 0x77, 0xFF, 0xD9,
    ]);

    assert!(dst.inject_marker_from(&src, 0xE1));
    assert_eq!(
        encode(&dst),
        vec![
            0xFF, 0xD8, //
            0xFF, 0xE0, 0x00, 0x02, // untouched, still first
            0xFF, 0xE1, 0x00, 0x04, 0xDE, 0xAD, // replaced at its old position
            0xFF, 0xD9,
        ]
    );
}

#[test]
fn inject_absent_leaves_destination_unchanged() {
    let src = parse(&[0xFF, 0xD8, 0xFF, 0xE0, 0x00, 0x02, 0xFF, 0xD9]);
    let mut dst = parse(&[0xFF, 0xD8, 0xFF, 0xE2, 0x00, 0x03, 0x55, 0xFF, 0xD9]);
    let before = encode(&dst);

    assert!(!dst.inject_marker_from(&src, 0xE1));
    assert_eq!(encode(&dst), before);
}

#[test]
fn inject_takes_the_first_source_match() {
    let src = parse(&[
        0xFF, 0xD8, 0xFF, 0xE1, 0x00, 0x03, 0x01, 0xFF, 0xE1, 0x00, 0x03, 0x02, 0xFF, 0xD9,
    ]);
    let mut dst = parse(&[0xFF, 0xD8, 0xFF, 0xD9]);

    assert!(dst.inject_marker_from(&src, 0xE1));
    assert_eq!(encode(&dst), vec![0xFF, 0xD8, 0xFF, 0xE1, 0x00, 0x03, 0x01, 0xFF, 0xD9]);
}

#[test]
fn inject_never_matches_scan_blocks() {
    // the only 0xDA in the source is a scan block, never a match target
    let src = parse(&[0xFF, 0xD8, 0xFF, 0xDA, 0x00, 0x02, 0x01, 0x02, 0xFF, 0xD9]);
    let mut dst = parse(&[0xFF, 0xD8, 0xFF, 0xD9]);
    let before = encode(&dst);

    assert!(!dst.inject_marker_from(&src, 0xDA));
    assert_eq!(encode(&dst), before);
}

#[test]
fn inject_marked_data_inserts_when_absent() {
    let mut dst = parse(&[0xFF, 0xD8, 0xFF, 0xE0, 0x00, 0x02, 0xFF, 0xD9]);
    dst.inject_marked_data(MarkedData { marker: 0xE1, data: vec![0x09] });
    assert_eq!(
        encode(&dst),
        vec![0xFF, 0xD8, 0xFF, 0xE1, 0x00, 0x03, 0x09, 0xFF, 0xE0, 0x00, 0x02, 0xFF, 0xD9]
    );
}

#[test]
fn inject_marked_data_replaces_only_the_first_match() {
    let mut dst = parse(&[
        0xFF, 0xD8, 0xFF, 0xE1, 0x00, 0x03, 0x01, 0xFF, 0xE1, 0x00, 0x03, 0x02, 0xFF, 0xD9,
    ]);
    dst.inject_marked_data(MarkedData { marker: 0xE1, data: vec![0x0A, 0x0B] });
    assert_eq!(
        encode(&dst),
        vec![
            0xFF, 0xD8, //
            0xFF, 0xE1, 0x00, 0x04, 0x0A, 0x0B, // first match replaced
            0xFF, 0xE1, 0x00, 0x03, 0x02, // second left alone
            0xFF, 0xD9,
        ]
    );
}

#[test]
fn hand_built_document_encodes_from_payload_sizes() {
    // encoding derives every length field from the payload, so a document
    // built by hand needs no length bookkeeping
    let jpeg = Jpeg {
        data: vec![JpegData::MarkedData(MarkedData { marker: 0xFE, data: vec![0x68, 0x69] })],
    };
    assert_eq!(encode(&jpeg), vec![0xFF, 0xD8, 0xFF, 0xFE, 0x00, 0x04, 0x68, 0x69, 0xFF, 0xD9]);
}

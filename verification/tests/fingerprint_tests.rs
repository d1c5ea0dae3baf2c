use ciid::errors::IdError;
use ciid::fingerprint::{
    classify_extension, fingerprint_compressed, fingerprint_raw, is_jpeg_ext, raw_buffer_len,
    sensor_samples_to_bytes, ImageKind,
};
use ciid::identifier::{derive_identifier, get_identifier, DecodedImage};
use ciid::timestamp::{CaptureTimestamp, ExifRecord};

fn epoch() -> CaptureTimestamp {
    CaptureTimestamp {
        year: 1970,
        month: 1,
        day: 1,
        hour: 0,
        minute: 0,
        second: 0,
        millisecond: 0,
        offset_seconds: 0,
    }
}

#[test]
fn test_classify_jpeg_extensions() {
    assert_eq!(classify_extension(Some(b"jpg")), ImageKind::Compressed);
    assert_eq!(classify_extension(Some(b"JPG")), ImageKind::Compressed);
    assert_eq!(classify_extension(Some(b"jpeg")), ImageKind::Compressed);
    assert_eq!(classify_extension(Some(b"JpEg")), ImageKind::Compressed);
    // the pattern is looked for anywhere in the extension
    assert_eq!(classify_extension(Some(b"xjpgy")), ImageKind::Compressed);
}

#[test]
fn test_classify_raw_extensions() {
    assert_eq!(classify_extension(Some(b"cr2")), ImageKind::RawSensor);
    assert_eq!(classify_extension(Some(b"png")), ImageKind::RawSensor);
    assert_eq!(classify_extension(Some(b"jpx")), ImageKind::RawSensor);
    assert_eq!(classify_extension(Some(b"jp")), ImageKind::RawSensor);
    assert_eq!(classify_extension(Some(b"")), ImageKind::RawSensor);
    assert_eq!(classify_extension(None), ImageKind::RawSensor);
}

#[test]
fn test_is_jpeg_ext_plain() {
    assert!(is_jpeg_ext(b"jpeg"));
    assert!(!is_jpeg_ext(b"nef"));
}

#[test]
fn test_fingerprint_known_digest() {
    // the SHA-256 of "abc", through the digest and the hex encoding at once
    let digest = fingerprint_compressed(b"abc");
    let id = get_identifier(&epoch(), 0, Some(&digest)).unwrap();
    assert_eq!(
        id,
        "0-ba7816bf8f01cfea414140de5dae2223b00361a396177a9cb410ff61f20015ad"
    );
}

#[test]
fn test_fingerprint_empty_digest() {
    let digest = fingerprint_compressed(b"");
    let id = get_identifier(&epoch(), 0, Some(&digest)).unwrap();
    assert_eq!(
        id,
        "0-e3b0c44298fc1c149afbf4c8996fb92427ae41e4649b934ca495991b7852b855"
    );
}

#[test]
fn test_fingerprint_deterministic() {
    let buffer: Vec<u8> = (0u32..4096).map(|i| (i % 251) as u8).collect();
    let first = fingerprint_compressed(&buffer);
    let second = fingerprint_compressed(&buffer);
    assert_eq!(first, second);
}

#[test]
fn test_raw_buffer_len_counts_pitch_not_width() {
    assert_eq!(raw_buffer_len(6200, 4000), 24_800_000);
}

#[test]
fn test_fingerprint_raw_takes_whole_pitched_buffer() {
    // pitch 6200, 4000 rows: exactly 24,800,000 bytes are digested
    let buffer = vec![0u8; 24_800_000];
    let digest = fingerprint_raw(&buffer, 6200, 4000).unwrap();
    assert_eq!(digest, fingerprint_compressed(&buffer));
}

#[test]
fn test_fingerprint_raw_rejects_width_sized_buffer() {
    // a buffer sized width times height, with width 6096 under pitch 6200
    let buffer = vec![0u8; 6096 * 4000];
    match fingerprint_raw(&buffer, 6200, 4000) {
        Err(IdError::RawSizeMismatch { expected, actual }) => {
            assert_eq!(expected, 24_800_000);
            assert_eq!(actual, 24_384_000);
        }
        other => panic!("expected a size-mismatch error, got {:?}", other),
    }
}

#[test]
fn test_sensor_samples_to_bytes_keeps_byte_image() {
    let samples: Vec<u16> = vec![0x0102, 0x0304, 0xff00];
    let bytes = sensor_samples_to_bytes(&samples);
    assert_eq!(bytes, vec![0x02, 0x01, 0x04, 0x03, 0x00, 0xff]);
    assert_eq!(bytes.len(), 2 * samples.len());
}

#[test]
fn test_derive_identifier_without_hash() {
    let records = vec![ExifRecord {
        sub_sec_date_time_original: b"2009:02:13 23:31:30.123".to_vec(),
        offset_time_original: None,
        time_zone: None,
    }];
    let id = derive_identifier(&records, None, 14).unwrap();
    assert_eq!(id, "01234567890123");
}

#[test]
fn test_derive_identifier_with_compressed_image() {
    let records = vec![ExifRecord {
        sub_sec_date_time_original: b"1970:01:01 00:00:00".to_vec(),
        offset_time_original: None,
        time_zone: None,
    }];
    let decoded = DecodedImage::Compressed {
        pixels: b"abc".to_vec(),
    };
    let id = derive_identifier(&records, Some(&decoded), 0).unwrap();
    assert_eq!(
        id,
        "0-ba7816bf8f01cfea414140de5dae2223b00361a396177a9cb410ff61f20015ad"
    );
}

#[test]
fn test_derive_identifier_raw_mismatch_beats_epoch_error() {
    // the fingerprint stage fails before the encoding stage can reject the
    // pre-epoch timestamp
    let records = vec![ExifRecord {
        sub_sec_date_time_original: b"1969:01:01 00:00:00".to_vec(),
        offset_time_original: None,
        time_zone: None,
    }];
    let decoded = DecodedImage::RawSensor {
        buffer: vec![0u8; 10],
        pitch: 4,
        rows: 2,
    };
    assert!(matches!(
        derive_identifier(&records, Some(&decoded), 0),
        Err(IdError::RawSizeMismatch { .. })
    ));
}

#[test]
fn test_sample_scenario_default_offset_and_hex_hash() {
    // resolving a date with no offset fields defaults to +00:00; encoding
    // that instant with no minimum width and a four-byte fingerprint
    let records = vec![ExifRecord {
        sub_sec_date_time_original: b"2009:02:13 23:31:30.123".to_vec(),
        offset_time_original: None,
        time_zone: None,
    }];
    let resolved = ciid::timestamp::resolve_capture_timestamp(&records).unwrap();
    assert_eq!(resolved.offset_seconds, 0);
    let id = get_identifier(&resolved, 0, Some(&[1, 2, 3, 4])).unwrap();
    assert_eq!(id, "1234567890123-01020304");
}

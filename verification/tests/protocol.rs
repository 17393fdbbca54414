use powerpico_client::protocol::{FrameParser, RawSample};

fn frame(timestamp: u64, points: &[(u8, u16, u16, u16)]) -> Vec<u8> {
    let mut bytes = vec![0xAA, 0x55];
    bytes.extend(timestamp.to_le_bytes());
    bytes.push(points.len() as u8);
    for (range, voltage, current, reference) in points {
        bytes.push(*range);
        bytes.extend(voltage.to_le_bytes());
        bytes.extend(current.to_le_bytes());
        bytes.extend(reference.to_le_bytes());
    }
    bytes
}

/// Seconds since the first frame, as the client computes them.
fn time_of(sample: &RawSample) -> f64 {
    (sample.elapsed_us as f64 + sample.index as f64 * 100.0) / 1_000_000.0
}

#[test]
fn parses_fragmented_and_misaligned_frames() {
    let bytes = frame(1000, &[(1, 1000, 2050, 2048), (2, 2000, 2052, 2048)]);
    let mut parser = FrameParser::default();
    assert!(parser.push(&[0, 1, 2, bytes[0]]).is_empty());
    let mut rest = vec![bytes[1]];
    rest.extend_from_slice(&bytes[2..]);
    let samples = parser.push(&rest);
    assert_eq!(samples.len(), 2);
    assert_eq!(time_of(&samples[0]), 0.0);
    assert!((time_of(&samples[1]) - 0.0001).abs() < 1e-9);
}

#[test]
fn rejects_invalid_measurements() {
    let bytes = frame(
        1000,
        &[
            (0, 1000, 2050, 2048),
            (1, 1000, 5000, 2048),
            (1, 1000, 2050, 1800),
        ],
    );
    assert!(FrameParser::default().push(&bytes).is_empty());
}

#[test]
fn keeps_the_first_frame_as_time_base() {
    let mut parser = FrameParser::new();
    let mut bytes = frame(5_000, &[(3, 100, 200, 2000)]);
    bytes.extend(frame(5_250, &[(2, 2730, 4096, 2098), (1, 2731, 0, 2000)]));
    let samples = parser.push(&bytes);
    assert_eq!(
        samples,
        vec![
            RawSample { elapsed_us: 0, index: 0, range: 3, voltage_adc: 100, current_adc: 200, reference_adc: 2000 },
            RawSample { elapsed_us: 250, index: 0, range: 2, voltage_adc: 2730, current_adc: 4096, reference_adc: 2098 },
        ]
    );
}

#[test]
fn byte_by_byte_feeding_gives_the_same_samples() {
    let mut bytes = vec![0x13, 0xAA, 0x00];
    bytes.extend(frame(77, &[(1, 10, 2000, 2000), (2, 20, 2001, 2001)]));
    bytes.extend([0xAA, 0x55, 0, 0, 0, 0, 0, 0, 0, 0, 0]);
    bytes.extend(frame(177, &[(3, 30, 2002, 2002)]));
    let whole = FrameParser::new().push(&bytes);
    let mut parser = FrameParser::new();
    let mut pieces = Vec::new();
    for b in &bytes {
        pieces.extend(parser.push(&[*b]));
    }
    assert_eq!(whole.len(), 3);
    assert_eq!(pieces, whole);
}

#[test]
fn a_zero_count_header_is_skipped() {
    let mut bytes = vec![0xAA, 0x55, 1, 2, 3, 4, 5, 6, 7, 8, 0];
    bytes.extend(frame(9, &[(1, 1, 2000, 2000)]));
    assert_eq!(FrameParser::new().push(&bytes).len(), 1);
}

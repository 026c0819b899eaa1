use drone_telemetry::frame::{Buffer, BufferResult, CAPACITY};
use drone_telemetry::record::MagSample;

fn mag_frame(x: i16, y: i16, command: &str) -> Vec<u8> {
    postcard::to_allocvec_cobs(&(x, y, command)).unwrap()
}

fn is_consumed(r: &BufferResult<'_, MagSample>) -> bool {
    matches!(r, BufferResult::Consumed)
}

#[test]
fn empty_input_is_consumed_without_change() {
    let mut buf = Buffer::new();
    let r = buf.write::<MagSample>(&[]);
    assert!(is_consumed(&r));
    assert_eq!(buf.len(), 0);
}

#[test]
fn hand_encoded_variant_a_frame_decodes() {
    let bytes = [0x03u8, 0xC8, 0x01, 0x04, 0x02, b'h', b'i', 0x00];
    assert_eq!(mag_frame(100, 0, "hi"), bytes.to_vec());
    let mut buf = Buffer::new();
    match buf.write::<MagSample>(&bytes) {
        BufferResult::Success { data, remaining } => {
            assert_eq!(data.x, 100);
            assert_eq!(data.y, 0);
            assert_eq!(data.command, "hi");
            assert!(remaining.is_empty());
        }
        _ => panic!("expected a decoded record"),
    }
    assert_eq!(buf.len(), 0);
}

#[test]
fn partial_writes_accumulate_until_terminator() {
    let frame = mag_frame(-1234, 567, "go");
    let body = &frame[..frame.len() - 1];
    let mut buf = Buffer::new();
    for (k, b) in body.iter().enumerate() {
        let r = buf.write::<MagSample>(std::slice::from_ref(b));
        assert!(is_consumed(&r));
        assert_eq!(buf.len(), k + 1);
    }
    match buf.write::<MagSample>(&[0u8]) {
        BufferResult::Success { data, remaining } => {
            assert_eq!((data.x, data.y), (-1234, 567));
            assert_eq!(data.command, "go");
            assert!(remaining.is_empty());
        }
        _ => panic!("expected a decoded record"),
    }
    assert_eq!(buf.len(), 0);
}

#[test]
fn split_frame_across_two_windows() {
    let frame = mag_frame(7, -7, "split");
    let (a, b) = frame.split_at(3);
    let mut buf = Buffer::new();
    assert!(is_consumed(&buf.write::<MagSample>(a)));
    assert_eq!(buf.len(), 3);
    match buf.write::<MagSample>(b) {
        BufferResult::Success { data, remaining } => {
            assert_eq!((data.x, data.y), (7, -7));
            assert!(remaining.is_empty());
        }
        _ => panic!("expected a decoded record"),
    }
}

#[test]
fn unterminated_overflow_returns_exact_suffix() {
    let data: Vec<u8> = (0..300u32).map(|i| (i % 250 + 1) as u8).collect();
    let mut buf = Buffer::new();
    match buf.write::<MagSample>(&data) {
        BufferResult::Overfull(rest) => assert_eq!(rest, &data[CAPACITY..]),
        _ => panic!("expected an overflow"),
    }
    assert_eq!(buf.len(), 0);
}

#[test]
fn overflow_after_held_bytes_returns_what_did_not_fit() {
    let mut buf = Buffer::new();
    let first = vec![5u8; 200];
    assert!(is_consumed(&buf.write::<MagSample>(&first)));
    let second = vec![6u8; 100];
    match buf.write::<MagSample>(&second) {
        BufferResult::Overfull(rest) => assert_eq!(rest, &second[56..]),
        _ => panic!("expected an overflow"),
    }
    assert_eq!(buf.len(), 0);
}

#[test]
fn overflow_with_terminator_returns_bytes_after_it() {
    let mut buf = Buffer::new();
    assert!(is_consumed(&buf.write::<MagSample>(&vec![9u8; 250])));
    let mut data = vec![9u8; 10];
    data.push(0);
    data.extend_from_slice(&[1, 2, 3]);
    match buf.write::<MagSample>(&data) {
        BufferResult::Overfull(rest) => assert_eq!(rest, &[1u8, 2, 3][..]),
        _ => panic!("expected an overflow"),
    }
    assert_eq!(buf.len(), 0);
}

#[test]
fn frame_of_exactly_capacity_is_decoded_not_dropped() {
    let mut data = vec![0xFFu8; CAPACITY];
    data.push(0);
    data.push(42);
    let mut buf = Buffer::new();
    match buf.write::<MagSample>(&data) {
        BufferResult::DeserErr(rest) => assert_eq!(rest, &[42u8][..]),
        _ => panic!("expected a decode error"),
    }
    let mut longer = vec![0xFFu8; CAPACITY + 1];
    longer.push(0);
    match buf.write::<MagSample>(&longer) {
        BufferResult::Overfull(rest) => assert!(rest.is_empty()),
        _ => panic!("expected an overflow"),
    }
}

#[test]
fn malformed_frame_is_a_decode_error_with_remainder() {
    let mut data = vec![0x09u8, 0x01];
    data.push(0);
    let next = mag_frame(1, 2, "a");
    data.extend_from_slice(&next);
    let mut buf = Buffer::new();
    match buf.write::<MagSample>(&data) {
        BufferResult::DeserErr(rest) => assert_eq!(rest, &next[..]),
        _ => panic!("expected a decode error"),
    }
    assert_eq!(buf.len(), 0);
}

#[test]
fn two_frames_in_one_window_decode_in_order() {
    let mut window = mag_frame(10, 20, "one");
    window.extend_from_slice(&mag_frame(-30, 40, "two"));
    let mut buf = Buffer::new();
    let mut seen = Vec::new();
    let mut rest: &[u8] = &window;
    while !rest.is_empty() {
        rest = match buf.write::<MagSample>(rest) {
            BufferResult::Consumed => break,
            BufferResult::Overfull(r) => r,
            BufferResult::DeserErr(r) => r,
            BufferResult::Success { data, remaining } => {
                seen.push((data.x, data.y, data.command));
                remaining
            }
        };
    }
    assert_eq!(seen, vec![(10, 20, "one".to_string()), (-30, 40, "two".to_string())]);

    let mut buf = Buffer::new();
    let drained = buf.drain::<MagSample>(&window);
    assert_eq!(drained.len(), 2);
    assert_eq!((drained[0].x, drained[0].y, drained[0].command.as_str()), (10, 20, "one"));
    assert_eq!((drained[1].x, drained[1].y, drained[1].command.as_str()), (-30, 40, "two"));
    assert_eq!(buf.len(), 0);
}

#[test]
fn corrupted_frame_between_two_valid_frames_is_skipped() {
    let mut window = mag_frame(1, -1, "a");
    window.extend_from_slice(&[0x07u8, 0x33, 0x33, 0x00]);
    window.extend_from_slice(&mag_frame(2, -2, "b"));
    let mut buf = Buffer::new();
    let drained = buf.drain::<MagSample>(&window);
    assert_eq!(drained.len(), 2);
    assert_eq!((drained[0].x, drained[0].y, drained[0].command.as_str()), (1, -1, "a"));
    assert_eq!((drained[1].x, drained[1].y, drained[1].command.as_str()), (2, -2, "b"));
}

#[test]
fn overlong_garbage_between_two_valid_frames_is_skipped() {
    let mut window = mag_frame(3, 4, "x");
    window.extend_from_slice(&vec![0x42u8; 400]);
    window.push(0);
    window.extend_from_slice(&mag_frame(5, 6, "y"));
    let mut buf = Buffer::new();
    let drained = buf.drain::<MagSample>(&window);
    assert_eq!(drained.len(), 2);
    assert_eq!((drained[0].x, drained[1].x), (3, 5));
}

#[test]
fn drain_keeps_partial_tail_for_next_window() {
    let frame = mag_frame(11, 12, "tail");
    let mut window = mag_frame(9, 9, "head");
    window.extend_from_slice(&frame[..4]);
    let mut buf = Buffer::new();
    let first = buf.drain::<MagSample>(&window);
    assert_eq!(first.len(), 1);
    assert_eq!(buf.len(), 4);
    let second = buf.drain::<MagSample>(&frame[4..]);
    assert_eq!(second.len(), 1);
    assert_eq!((second[0].x, second[0].y), (11, 12));
    assert_eq!(buf.len(), 0);
}

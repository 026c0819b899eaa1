use drone_telemetry::pipeline::{TelemetryPipeline, MAG_WINDOW};
use drone_telemetry::record::MagSample;
use drone_telemetry::window::MovingWindow;

fn mean(w: &MovingWindow<f64>) -> f64 {
    w.values().iter().fold(0.0, |s, v| s + v) / (w.len() as f64)
}

#[test]
fn test_moving_average() {
    let result = MovingWindow::new(0, 0.0f64);
    assert_eq!(result.len(), 1);

    let result = MovingWindow::new(5, 1.0f64);
    assert_eq!(result.len(), 5);
    for n in result.values().iter() {
        assert_eq!(*n, 1.0);
    }

    let mut result = MovingWindow::new(2, 0.0f64);
    result.add(5.0);
    result.add(10.0);
    assert_eq!(mean(&result), 7.5);

    result.add(2.5);
    result.add(2.5);
    assert_eq!(mean(&result), 2.5);
}

#[test]
fn zero_length_window_behaves_as_length_one() {
    let mut a = MovingWindow::new(0, 3.0f64);
    let mut b = MovingWindow::new(1, 3.0f64);
    assert_eq!(a.values(), b.values());
    a.add(8.5);
    b.add(8.5);
    assert_eq!(a.values(), &[8.5][..]);
    assert_eq!(mean(&a), 8.5);
    assert_eq!(mean(&b), 8.5);
}

#[test]
fn window_overwrites_oldest_slot() {
    let mut w = MovingWindow::new(3, 0i16);
    w.add(1);
    w.add(2);
    assert_eq!(w.values(), &[1i16, 2, 0][..]);
    w.add(3);
    w.add(4);
    assert_eq!(w.values(), &[4i16, 2, 3][..]);
    assert_eq!(w.sum(), 9);
}

#[test]
fn window_sum_is_exact_at_extremes() {
    let mut w = MovingWindow::new(4, i16::MIN);
    assert_eq!(w.sum(), -131072);
    w.add(i16::MAX);
    assert_eq!(w.sum(), 32767 - 3 * 32768);
}

#[test]
fn end_to_end_variant_a_sample() {
    let bytes = [0x03u8, 0xC8, 0x01, 0x04, 0x02, b'h', b'i', 0x00];
    let mut p = TelemetryPipeline::new(MAG_WINDOW, 0);
    let batch = p.process::<MagSample>(&bytes);
    assert_eq!(batch.records.len(), 1);
    assert_eq!(batch.records[0].x, 100);
    assert_eq!(batch.records[0].y, 0);
    assert_eq!(batch.records[0].command, "hi");
    assert_eq!(batch.smoothed.len(), 1);
    let s = batch.smoothed[0];
    assert_eq!((s.mag_x_sum, s.mag_x_len), (100, 32));
    assert_eq!((s.mag_y_sum, s.mag_y_len), (0, 32));
    let x = s.mag_x_sum as f64 / s.mag_x_len as f64;
    let y = s.mag_y_sum as f64 / s.mag_y_len as f64;
    assert_eq!(x, 3.125);
    let heading = y.atan2(x).to_degrees() + 180.0;
    assert_eq!(heading, (0.0f64).atan2(100.0).to_degrees() + 180.0);
    assert_eq!(heading, 180.0);
}

#[test]
fn pipeline_smooths_across_samples_and_skips_bad_frames() {
    let mut window = postcard::to_allocvec_cobs(&(10i16, -4i16, "a")).unwrap();
    window.extend_from_slice(&[0x05u8, 0x01, 0x00]);
    window.extend_from_slice(&postcard::to_allocvec_cobs(&(20i16, 6i16, "b")).unwrap());
    let mut p = TelemetryPipeline::new(2, 1);
    let batch = p.process::<MagSample>(&window);
    assert_eq!(batch.records.len(), 2);
    assert_eq!(batch.smoothed[0].mag_x_sum, 11);
    assert_eq!(batch.smoothed[0].mag_y_sum, -3);
    assert_eq!(batch.smoothed[1].mag_x_sum, 30);
    assert_eq!(batch.smoothed[1].mag_y_sum, 2);
    let next = postcard::to_allocvec_cobs(&(5i16, 5i16, "c")).unwrap();
    let batch = p.process::<MagSample>(&next);
    assert_eq!(batch.smoothed[0].mag_x_sum, 25);
    assert_eq!(batch.smoothed[0].mag_y_sum, 11);
}

#[test]
fn observe_returns_window_sums() {
    let mut p = TelemetryPipeline::new(0, 0);
    let s = p.observe((-5, 9));
    assert_eq!((s.mag_x_sum, s.mag_x_len, s.mag_y_sum, s.mag_y_len), (-5, 1, 9, 1));
}

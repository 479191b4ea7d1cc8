use framestack::settings::PropertyValue;
use framestack::video::{VideoFormat, VideoFrame, VideoInfo};
use framestack::{FrameStack, FrameStackMode};

/// An element with negotiated video, and what the buffers that are pushed into it look like.
struct Harness {
    element: FrameStack,
    info: VideoInfo,
}

impl Harness {
    fn new() -> Self {
        Harness {
            element: FrameStack::default(),
            info: rgb_info(4, 2),
        }
    }

    fn set_caps(&mut self, info: VideoInfo) {
        self.info = info;
        self.element.set_info(info);
    }

    fn push(&mut self, mut data: Vec<u8>) -> Vec<u8> {
        let frame = VideoFrame {
            format: self.info.format,
            width: self.info.width,
            height: self.info.height,
            stride: self.info.stride,
            plane: Some(data.as_mut_slice()),
        };
        self.element.transform_frame_ip(frame).unwrap();
        data
    }
}

fn rgb_info(width: u32, height: u32) -> VideoInfo {
    VideoInfo {
        format: VideoFormat::Rgb,
        width,
        height,
        pixel_stride: 3,
        stride: width as usize * 3,
    }
}

fn rgba_info(width: u32, height: u32) -> VideoInfo {
    VideoInfo {
        format: VideoFormat::Rgba,
        width,
        height,
        pixel_stride: 4,
        stride: width as usize * 4,
    }
}

/// Build a 4x2 RGB buffer where every pixel has the given (r, g, b).
fn solid_rgb_buffer_4x2(r: u8, g: u8, b: u8) -> Vec<u8> {
    let mut data = Vec::with_capacity(4 * 3 * 2);
    for _ in 0..(4 * 2) {
        data.extend_from_slice(&[r, g, b]);
    }
    data
}

/// Build a 4x2 RGBA buffer where every pixel has the given (r, g, b, a).
fn solid_rgba_buffer_4x2(r: u8, g: u8, b: u8, a: u8) -> Vec<u8> {
    let mut data = Vec::with_capacity(4 * 4 * 2);
    for _ in 0..(4 * 2) {
        data.extend_from_slice(&[r, g, b, a]);
    }
    data
}

fn make_harness(mode: FrameStackMode, num_frames: u32, info: VideoInfo) -> Harness {
    let mut h = Harness::new();
    h.set_caps(info);
    h.element.set_property("mode", PropertyValue::Mode(mode));
    h.element
        .set_property("num-frames", PropertyValue::UInt(num_frames));
    h
}

#[test]
fn test_lighten_keeps_max_per_channel() {
    let mut h = make_harness(FrameStackMode::Lighten, 4, rgb_info(4, 2));

    // First frame: dim red.
    let out1 = h.push(solid_rgb_buffer_4x2(64, 0, 0));
    assert!(
        out1.chunks_exact(3).all(|p| p == [64, 0, 0]),
        "first lighten frame should equal input"
    );

    // Second frame: bright green; lighten => per-channel max = (64, 255, 0).
    let out2 = h.push(solid_rgb_buffer_4x2(0, 255, 0));
    assert!(
        out2.chunks_exact(3).all(|p| p == [64, 255, 0]),
        "lighten of (64,0,0) and (0,255,0) should be (64,255,0), got {:?}",
        &out2[..3]
    );

    // Third frame: pure white. Lighten => (255, 255, 255).
    let out3 = h.push(solid_rgb_buffer_4x2(255, 255, 255));
    assert!(
        out3.chunks_exact(3).all(|p| p == [255, 255, 255]),
        "lighten with white should saturate to white"
    );
}

#[test]
fn test_average_two_frames_is_midpoint() {
    let mut h = make_harness(FrameStackMode::Average, 2, rgb_info(4, 2));

    // First frame: black. With one frame in history, average == black.
    let out1 = h.push(solid_rgb_buffer_4x2(0, 0, 0));
    assert!(out1.iter().all(|&b| b == 0));

    // Second frame: white. With num-frames=2, average of (0,0,0) and
    // (255,255,255) is (127,127,127) using integer division (255/2 == 127).
    let out2 = h.push(solid_rgb_buffer_4x2(255, 255, 255));
    assert!(
        out2.chunks_exact(3).all(|p| p == [127, 127, 127]),
        "average of black+white should be mid-gray (127), got {:?}",
        &out2[..3]
    );

    // Third frame: black. The history now contains (white, black), so the
    // average should drop back to (127, 127, 127) too.
    let out3 = h.push(solid_rgb_buffer_4x2(0, 0, 0));
    assert!(
        out3.chunks_exact(3).all(|p| p == [127, 127, 127]),
        "average should slide with the ring, got {:?}",
        &out3[..3]
    );
}

#[test]
fn test_linear_decay_weights_newest_more() {
    let mut h = make_harness(FrameStackMode::LinearDecay, 2, rgb_info(4, 2));

    // First frame: black.
    let _ = h.push(solid_rgb_buffer_4x2(0, 0, 0));

    // Second frame: white. With num-frames=2 the weights are 1 (oldest=black)
    // and 2 (newest=white), normalized by 3, so the output is
    // (1*0 + 2*255) / 3 = 170.
    let out2 = h.push(solid_rgb_buffer_4x2(255, 255, 255));
    assert!(
        out2.chunks_exact(3).all(|p| p == [170, 170, 170]),
        "linear decay should weight newest (white) more, got {:?}",
        &out2[..3]
    );
}

#[test]
fn test_passthrough_alpha_preserves_current_alpha() {
    let mut h = Harness::new();
    h.set_caps(rgba_info(4, 2));
    h.element
        .set_property("mode", PropertyValue::Mode(FrameStackMode::Lighten));
    h.element.set_property("num-frames", PropertyValue::UInt(2u32));
    h.element
        .set_property("passthrough-alpha", PropertyValue::Boolean(true));

    // Frame 1: opaque black.
    let _ = h.push(solid_rgba_buffer_4x2(0, 0, 0, 255));

    // Frame 2: half-transparent white.
    let out2 = h.push(solid_rgba_buffer_4x2(255, 255, 255, 128));

    // Lighten on RGB => (255,255,255). Alpha should NOT be the lighten
    // result (255) but the current input's alpha (128).
    assert!(
        out2.chunks_exact(4).all(|p| p == [255, 255, 255, 128]),
        "alpha should be passed through from current frame, got {:?}",
        &out2[..4]
    );
}

#[test]
fn test_history_resets_on_caps_change() {
    // Start with one caps configuration.
    let mut h = make_harness(FrameStackMode::Lighten, 4, rgb_info(4, 2));

    let _ = h.push(solid_rgb_buffer_4x2(0, 0, 255));
    let _ = h.push(solid_rgb_buffer_4x2(255, 0, 0));

    // Switch to a different resolution; this must reset the history,
    // otherwise the leftover blue from the previous caps would taint the
    // new dim-red output.
    h.set_caps(rgb_info(8, 4));

    // 8x4 dim red. With a clean history this should round-trip unchanged.
    let mut data = Vec::with_capacity(8 * 4 * 3);
    for _ in 0..(8 * 4) {
        data.extend_from_slice(&[10, 0, 0]);
    }
    let out = h.push(data);
    assert!(
        out.chunks_exact(3).all(|p| p == [10, 0, 0]),
        "after a caps change the previous-format frames should be discarded"
    );
}

use framestack::declare::PadDirection;
use framestack::element::{FlowError, TransformError};
use framestack::settings::{PropertyKind, PropertyValue, Settings};
use framestack::state::State;
use framestack::video::{AlphaPos, VideoFormat, VideoFrame, VideoInfo};
use framestack::{FrameStack, FrameStackMode};

fn info(format: VideoFormat, width: u32, height: u32, pixel_stride: usize, stride: usize) -> VideoInfo {
    VideoInfo { format, width, height, pixel_stride, stride }
}

fn element(mode: FrameStackMode, num_frames: u32, video: VideoInfo) -> FrameStack {
    let mut element = FrameStack::default();
    element.set_property("mode", PropertyValue::Mode(mode));
    element.set_property("num-frames", PropertyValue::UInt(num_frames));
    element.set_info(video);
    element
}

fn frame(video: VideoInfo, stride: usize, data: &mut [u8]) -> VideoFrame<'_> {
    VideoFrame {
        format: video.format,
        width: video.width,
        height: video.height,
        stride,
        plane: Some(data),
    }
}

fn push(element: &mut FrameStack, video: VideoInfo, data: &[u8]) -> Vec<u8> {
    let mut data = data.to_vec();
    element
        .transform_frame_ip(frame(video, video.stride, &mut data))
        .unwrap();
    data
}

fn history(state: &State) -> Vec<Vec<u8>> {
    state.history.iter().cloned().collect()
}

const MODES: [FrameStackMode; 3] =
    [FrameStackMode::Lighten, FrameStackMode::Average, FrameStackMode::LinearDecay];

#[test]
fn frame_without_negotiation_is_refused() {
    let video = info(VideoFormat::Rgb, 1, 1, 3, 3);
    let mut element = FrameStack::default();
    let mut data = [1, 2, 3];
    let result = element.transform_frame_ip(frame(video, 3, &mut data));
    assert_eq!(result, Err(TransformError::NoState));
    assert_eq!(data, [1, 2, 3]);
    assert!(element.state.is_none());
    assert_eq!(TransformError::NoState.flow_error(), FlowError::NotNegotiated);
    assert_eq!(TransformError::NoState.message(), Some("Have no state yet"));
}

#[test]
fn frame_of_other_video_is_refused_and_leaves_history() {
    let video = info(VideoFormat::Rgb, 1, 1, 3, 3);
    let mut element = element(FrameStackMode::Lighten, 4, video);
    push(&mut element, video, &[5, 6, 7]);
    let others = [
        info(VideoFormat::Bgr, 1, 1, 3, 3),
        info(VideoFormat::Other(2), 1, 1, 3, 3),
        info(VideoFormat::Rgb, 2, 1, 3, 6),
        info(VideoFormat::Rgb, 1, 2, 3, 3),
    ];
    for other in others {
        let mut data = [9, 9, 9, 9, 9, 9];
        let result = element.transform_frame_ip(frame(other, other.stride, &mut data));
        assert_eq!(result, Err(TransformError::FrameMismatch));
        assert_eq!(data, [9, 9, 9, 9, 9, 9]);
        assert_eq!(history(element.state.as_ref().unwrap()), vec![vec![5, 6, 7]]);
    }
    assert_eq!(TransformError::FrameMismatch.flow_error(), FlowError::NotNegotiated);
    assert_eq!(
        TransformError::FrameMismatch.message(),
        Some("Frame format does not match negotiated caps")
    );
}

#[test]
fn frame_without_plane_is_an_error() {
    let video = info(VideoFormat::Rgb, 1, 1, 3, 3);
    let mut element = element(FrameStackMode::Lighten, 4, video);
    let unmapped = VideoFrame { format: VideoFormat::Rgb, width: 1, height: 1, stride: 3, plane: None };
    assert_eq!(element.transform_frame_ip(unmapped), Err(TransformError::NoPlane));
    assert_eq!(history(element.state.as_ref().unwrap()), Vec::<Vec<u8>>::new());
    assert_eq!(TransformError::NoPlane.flow_error(), FlowError::Error);
    assert_eq!(TransformError::NoPlane.message(), None);
}

#[test]
fn stop_forgets_the_video() {
    let video = info(VideoFormat::Rgb, 1, 1, 3, 3);
    let mut element = element(FrameStackMode::Lighten, 4, video);
    push(&mut element, video, &[200, 200, 200]);
    element.stop();
    let mut data = [1, 2, 3];
    assert_eq!(
        element.transform_frame_ip(frame(video, 3, &mut data)),
        Err(TransformError::NoState)
    );
    element.set_info(video);
    assert_eq!(push(&mut element, video, &[1, 2, 3]), vec![1, 2, 3]);
    assert_eq!(element.settings.num_frames, 4);
}

#[test]
fn first_frame_is_unchanged_in_every_mode() {
    let video = info(VideoFormat::Bgr, 2, 2, 3, 8);
    let data: Vec<u8> = (0..16).map(|i| i * 13).collect();
    for mode in MODES {
        let mut element = element(mode, 7, video);
        assert_eq!(push(&mut element, video, &data), data);
    }
}

#[test]
fn one_frame_is_unchanged_in_every_mode() {
    let video = info(VideoFormat::Rgba, 1, 1, 4, 4);
    for mode in MODES {
        let mut element = element(mode, 1, video);
        push(&mut element, video, &[255, 255, 255, 255]);
        assert_eq!(push(&mut element, video, &[1, 2, 3, 4]), vec![1, 2, 3, 4]);
    }
}

#[test]
fn still_scene_is_unchanged_in_every_mode() {
    let video = info(VideoFormat::Rgb, 1, 1, 3, 3);
    for mode in MODES {
        let mut element = element(mode, 3, video);
        for _ in 0..5 {
            assert_eq!(push(&mut element, video, &[77, 1, 254]), vec![77, 1, 254]);
        }
    }
}

#[test]
fn three_frames_give_exact_values() {
    let video = info(VideoFormat::Rgb, 1, 1, 3, 3);
    let inputs: [[u8; 3]; 3] = [[10, 90, 200], [20, 60, 0], [40, 30, 100]];
    let expected: [[u8; 3]; 3] = [
        [40, 90, 200],
        // 70 / 3, 180 / 3, 300 / 3
        [23, 60, 100],
        // (10 + 2 * 20 + 3 * 40) / 6, (90 + 120 + 90) / 6, (200 + 0 + 300) / 6
        [28, 50, 83],
    ];
    for (mode, want) in MODES.into_iter().zip(expected) {
        let mut element = element(mode, 3, video);
        push(&mut element, video, &inputs[0]);
        push(&mut element, video, &inputs[1]);
        assert_eq!(push(&mut element, video, &inputs[2]), want.to_vec());
    }
}

#[test]
fn order_matters_to_linear_decay_alone() {
    let video = info(VideoFormat::Rgb, 1, 1, 3, 3);
    let run = |mode: FrameStackMode, order: [u8; 3]| {
        let mut element = element(mode, 3, video);
        push(&mut element, video, &[order[0]; 3]);
        push(&mut element, video, &[order[1]; 3]);
        push(&mut element, video, &[order[2]; 3])[0]
    };
    assert_eq!(run(FrameStackMode::Lighten, [9, 50, 200]), 200);
    assert_eq!(run(FrameStackMode::Lighten, [200, 50, 9]), 200);
    assert_eq!(run(FrameStackMode::Average, [9, 50, 200]), 86);
    assert_eq!(run(FrameStackMode::Average, [200, 50, 9]), 86);
    assert_eq!(run(FrameStackMode::LinearDecay, [9, 50, 200]), 118);
    assert_eq!(run(FrameStackMode::LinearDecay, [200, 50, 9]), 54);
}

#[test]
fn longest_history_does_not_overflow() {
    let video = info(VideoFormat::Rgb, 1, 1, 3, 3);
    for mode in MODES {
        let mut element = element(mode, 256, video);
        for _ in 0..300 {
            assert_eq!(push(&mut element, video, &[255, 255, 255]), vec![255, 255, 255]);
        }
        assert_eq!(element.state.as_ref().unwrap().history.len(), 256);
    }
}

#[test]
fn padding_is_untouched_and_not_kept() {
    let video = info(VideoFormat::Rgb, 1, 2, 3, 5);
    let mut element = element(FrameStackMode::Lighten, 2, video);
    push(&mut element, video, &[10, 0, 30, 251, 252, 1, 50, 0, 253, 254]);
    assert_eq!(
        history(element.state.as_ref().unwrap()),
        vec![vec![10, 0, 30, 1, 50, 0]]
    );
    let out = push(&mut element, video, &[0, 20, 0, 1, 2, 40, 0, 60, 3, 4]);
    assert_eq!(out, vec![10, 20, 30, 1, 2, 40, 50, 60, 3, 4]);
}

#[test]
fn rows_are_read_with_the_stride_of_the_frame() {
    let video = info(VideoFormat::Rgb, 1, 2, 3, 3);
    let mut element = element(FrameStackMode::Lighten, 2, video);
    push(&mut element, video, &[10, 0, 30, 1, 50, 0]);
    let mut data = vec![0, 20, 0, 7, 40, 0, 60, 8];
    element.transform_frame_ip(frame(video, 4, &mut data)).unwrap();
    assert_eq!(data, vec![10, 20, 30, 7, 40, 50, 60, 8]);
    let state = element.state.as_ref().unwrap();
    assert_eq!(state.src_stride, 4);
    assert_eq!(history(state)[1], vec![0, 20, 0, 40, 0, 60]);
}

#[test]
fn bytes_after_the_rows_are_untouched() {
    let video = info(VideoFormat::Rgb, 1, 1, 3, 3);
    let mut element = element(FrameStackMode::Lighten, 2, video);
    push(&mut element, video, &[9, 9, 9, 200]);
    assert_eq!(push(&mut element, video, &[1, 2, 3, 4]), vec![9, 9, 9, 4]);
}

#[test]
fn leading_alpha_is_passed_through() {
    for format in [VideoFormat::Argb, VideoFormat::Abgr] {
        let video = info(format, 2, 1, 4, 8);
        let mut element = element(FrameStackMode::Lighten, 2, video);
        push(&mut element, video, &[255, 9, 9, 9, 200, 8, 8, 8]);
        assert_eq!(
            push(&mut element, video, &[3, 1, 10, 1, 5, 1, 10, 1]),
            vec![3, 9, 10, 9, 5, 8, 10, 8]
        );
    }
}

#[test]
fn alpha_is_combined_unless_passed_through() {
    let video = info(VideoFormat::Bgra, 1, 1, 4, 4);
    let mut element = element(FrameStackMode::Average, 2, video);
    element.set_property("passthrough-alpha", PropertyValue::Boolean(false));
    push(&mut element, video, &[0, 0, 0, 255]);
    assert_eq!(push(&mut element, video, &[10, 20, 30, 128]), vec![5, 10, 15, 191]);
}

#[test]
fn padding_byte_of_a_pixel_is_no_alpha() {
    let formats = [VideoFormat::Rgbx, VideoFormat::Xrgb, VideoFormat::Bgrx, VideoFormat::Xbgr];
    for format in formats {
        let video = info(format, 1, 1, 4, 4);
        let mut element = element(FrameStackMode::Lighten, 2, video);
        push(&mut element, video, &[100, 100, 100, 100]);
        assert_eq!(push(&mut element, video, &[1, 2, 3, 4]), vec![100, 100, 100, 100]);
    }
}

#[test]
fn alpha_positions_of_the_formats() {
    assert_eq!(VideoFormat::Rgba.alpha_pos(), AlphaPos::Last);
    assert_eq!(VideoFormat::Bgra.alpha_pos(), AlphaPos::Last);
    assert_eq!(VideoFormat::Argb.alpha_pos(), AlphaPos::First);
    assert_eq!(VideoFormat::Abgr.alpha_pos(), AlphaPos::First);
    assert_eq!(VideoFormat::Rgb.alpha_pos(), AlphaPos::Absent);
    assert_eq!(VideoFormat::Xbgr.alpha_pos(), AlphaPos::Absent);
    assert_eq!(VideoFormat::Other(23).alpha_pos(), AlphaPos::Absent);
}

#[test]
fn only_the_last_frames_are_kept() {
    let video = info(VideoFormat::Rgb, 1, 1, 3, 3);
    let mut state = State::new(video);
    for i in 1..=5u8 {
        FrameStack::push_frame(&mut state, &[i, i, i], 3);
    }
    assert_eq!(history(&state), vec![vec![3, 3, 3], vec![4, 4, 4], vec![5, 5, 5]]);

    // Fewer frames from now on: more than one entry leaves.
    FrameStack::push_frame(&mut state, &[6, 6, 6], 1);
    assert_eq!(history(&state), vec![vec![6, 6, 6]]);

    // More frames again: what left does not come back.
    FrameStack::push_frame(&mut state, &[7, 7, 7], 3);
    assert_eq!(history(&state), vec![vec![6, 6, 6], vec![7, 7, 7]]);

    FrameStack::push_frame(&mut state, &[8, 8, 8], 0);
    assert_eq!(history(&state), Vec::<Vec<u8>>::new());
}

#[test]
fn what_left_the_history_no_longer_matters() {
    let video = info(VideoFormat::Rgb, 1, 1, 3, 3);
    for mode in MODES {
        let mut bright = element(mode, 2, video);
        push(&mut bright, video, &[255, 255, 255]);
        let mut fresh = element(mode, 2, video);
        for data in [[1, 2, 3], [40, 5, 6]] {
            push(&mut bright, video, &data);
            push(&mut fresh, video, &data);
        }
        let last = [7, 80, 9];
        assert_eq!(push(&mut bright, video, &last), push(&mut fresh, video, &last));
    }
}

#[test]
fn empty_video_is_accepted() {
    for (width, height, stride) in [(0, 2, 0), (2, 0, 6), (0, 0, 0), (0, 1, 4)] {
        let video = info(VideoFormat::Rgb, width, height, 3, stride);
        let mut element = element(FrameStackMode::LinearDecay, 2, video);
        assert_eq!(push(&mut element, video, &[4, 5]), vec![4, 5]);
        assert_eq!(history(element.state.as_ref().unwrap()), vec![Vec::<u8>::new()]);
    }
}

#[test]
fn combine_and_restore_alpha_on_their_own() {
    let video = info(VideoFormat::Rgba, 1, 2, 4, 4);
    let mut state = State::new(video);
    FrameStack::push_frame(&mut state, &[1, 2, 3, 250, 4, 5, 6, 251], 2);
    FrameStack::push_frame(&mut state, &[6, 5, 4, 10, 3, 2, 1, 11], 2);
    let mut dst = vec![99; 12];
    FrameStack::combine(&state, &mut dst, 6, FrameStackMode::Lighten);
    assert_eq!(dst, vec![6, 5, 4, 250, 99, 99, 4, 5, 6, 251, 99, 99]);
    FrameStack::restore_alpha(&state, &mut dst, 6);
    assert_eq!(dst, vec![6, 5, 4, 10, 99, 99, 4, 5, 6, 11, 99, 99]);
}

#[test]
fn properties_read_back() {
    let mut element = FrameStack::default();
    assert_eq!(element.settings, Settings::default());
    assert_eq!(element.property("num-frames"), PropertyValue::UInt(8));
    assert_eq!(element.property("mode"), PropertyValue::Mode(FrameStackMode::Lighten));
    assert_eq!(element.property("passthrough-alpha"), PropertyValue::Boolean(true));
    element.set_property("num-frames", PropertyValue::UInt(256));
    element.set_property("mode", PropertyValue::Mode(FrameStackMode::Average));
    element.set_property("passthrough-alpha", PropertyValue::Boolean(false));
    assert_eq!(element.property("num-frames"), PropertyValue::UInt(256));
    assert_eq!(element.property("mode"), PropertyValue::Mode(FrameStackMode::Average));
    assert_eq!(element.property("passthrough-alpha"), PropertyValue::Boolean(false));
    assert_eq!(FrameStackMode::default(), FrameStackMode::Lighten);
}

#[test]
fn mode_can_change_between_frames() {
    let video = info(VideoFormat::Rgb, 1, 1, 3, 3);
    let mut element = element(FrameStackMode::Lighten, 2, video);
    push(&mut element, video, &[100, 100, 100]);
    assert_eq!(push(&mut element, video, &[0, 0, 0]), vec![100, 100, 100]);
    // The inputs are kept, not the outputs.
    element.set_property("mode", PropertyValue::Mode(FrameStackMode::Average));
    assert_eq!(push(&mut element, video, &[50, 50, 50]), vec![25, 25, 25]);
}

#[test]
fn declared_properties() {
    let specs = FrameStack::properties();
    let names: Vec<&str> = specs.iter().map(|s| s.name).collect();
    assert_eq!(names, ["num-frames", "mode", "passthrough-alpha"]);
    let nicks: Vec<&str> = specs.iter().map(|s| s.nick).collect();
    assert_eq!(nicks, ["Number of frames", "Combination mode", "Pass-through alpha"]);
    assert_eq!(
        specs[0].blurb,
        "Number of most recent input frames combined into each output frame"
    );
    assert_eq!(
        specs[1].blurb,
        "How to combine the last num-frames input frames into the output"
    );
    assert_eq!(
        specs[2].blurb,
        "When the input has an alpha channel, copy the current frame's alpha instead of accumulating it"
    );
    assert_eq!(specs[0].kind, PropertyKind::UInt { minimum: 1, maximum: 256, default: 8 });
    assert_eq!(specs[1].kind, PropertyKind::Mode(FrameStackMode::Lighten));
    assert_eq!(specs[2].kind, PropertyKind::Boolean(true));
    assert!(specs.iter().all(|s| s.mutable_playing));
}

#[test]
fn declared_pads_and_metadata() {
    let pads = FrameStack::pad_templates();
    assert_eq!(pads.len(), 2);
    assert_eq!((pads[0].name, pads[0].direction), ("src", PadDirection::Src));
    assert_eq!((pads[1].name, pads[1].direction), ("sink", PadDirection::Sink));
    for pad in &pads {
        assert_eq!(
            pad.formats,
            [
                VideoFormat::Rgbx,
                VideoFormat::Xrgb,
                VideoFormat::Bgrx,
                VideoFormat::Xbgr,
                VideoFormat::Rgba,
                VideoFormat::Argb,
                VideoFormat::Bgra,
                VideoFormat::Abgr,
                VideoFormat::Rgb,
                VideoFormat::Bgr,
            ]
        );
    }
    let metadata = FrameStack::metadata();
    assert_eq!(metadata.long_name, "Frame stacking accumulator");
    assert_eq!(metadata.classification, "Filter/Effect/Video");
    assert!(metadata.description.starts_with("Combines the last N input frames per pixel"));
    assert_eq!(metadata.author, "gst-plugins-rs contributors");
}

#[test]
fn planes_that_hold_whole_rows_can_be_taken() {
    let video = info(VideoFormat::Rgb, 2, 2, 3, 8);
    let element = element(FrameStackMode::Lighten, 2, video);
    let takes = |len: usize, stride: usize| {
        let mut data = vec![0; len];
        element.can_take(&frame(video, stride, &mut data))
    };
    assert!(takes(16, 8));
    assert!(takes(17, 8));
    assert!(takes(12, 6));
    assert!(!takes(15, 8));
    assert!(!takes(14, 8));
    assert!(!takes(11, 6));
    assert!(!takes(100, 5));

    // A frame that is refused may come in any plane.
    let mut data = vec![0; 1];
    assert!(element.can_take(&frame(info(VideoFormat::Bgr, 2, 2, 3, 8), 8, &mut data)));
    assert!(FrameStack::default().can_take(&frame(video, 8, &mut data)));
}

#[test]
fn video_with_addressable_rows_is_valid() {
    assert!(info(VideoFormat::Rgb, 4, 2, 3, 12).is_valid());
    assert!(!info(VideoFormat::Rgb, 4, 2, 0, 12).is_valid());
    assert!(!info(VideoFormat::Rgb, 2, 2, usize::MAX, 12).is_valid());
    assert!(info(VideoFormat::Rgb, 1, 2, usize::MAX, 12).is_valid());
}

#[test]
fn lighter_input_never_gives_darker_output() {
    let video = info(VideoFormat::Rgb, 1, 1, 3, 3);
    for mode in MODES {
        let mut darker = element(mode, 3, video);
        let mut lighter = element(mode, 3, video);
        for data in [[0, 100, 7], [50, 30, 200], [255, 0, 9]] {
            let dark = push(&mut darker, video, &data);
            let light = push(&mut lighter, video, &data.map(|b: u8| b.saturating_add(1)));
            assert!(dark.iter().zip(&light).all(|(d, l)| d <= l));
        }
    }
}

#[test]
fn lighten_never_darkens() {
    let video = info(VideoFormat::Rgba, 1, 1, 4, 4);
    let mut element = element(FrameStackMode::Lighten, 3, video);
    for data in [[9, 200, 3, 255], [10, 0, 90, 1], [0, 0, 0, 30]] {
        let out = push(&mut element, video, &data);
        assert!(data.iter().zip(&out).all(|(input, output)| input <= output));
    }
    assert_eq!(push(&mut element, video, &[1, 1, 1, 1]), vec![10, 1, 90, 1]);
}

#[test]
fn passing_alpha_through_changes_nothing_without_alpha() {
    let video = info(VideoFormat::Rgb, 2, 1, 3, 6);
    for mode in MODES {
        let mut on = element(mode, 2, video);
        let mut off = element(mode, 2, video);
        off.set_property("passthrough-alpha", PropertyValue::Boolean(false));
        for data in [[1, 2, 3, 4, 5, 6], [60, 50, 40, 30, 20, 10]] {
            assert_eq!(push(&mut on, video, &data), push(&mut off, video, &data));
        }
    }
}

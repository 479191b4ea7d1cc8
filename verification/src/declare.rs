//! What the element declares of itself: its metadata, its pads and its properties.
use vstd::prelude::*;

use crate::settings::{
    lemma_property_names_distinct, property_kind, PropertyKind, PropertySpec, DEFAULT_MODE,
    DEFAULT_NUM_FRAMES, DEFAULT_PASSTHROUGH_ALPHA, MAX_NUM_FRAMES, MIN_NUM_FRAMES,
};
use crate::video::VideoFormat;
use crate::FrameStack;

verus! {

/// How the element is presented to users.
#[derive(Debug, Clone, Copy)]
pub struct ElementMetadata {
    pub long_name: &'static str,
    pub classification: &'static str,
    pub description: &'static str,
    pub author: &'static str,
}

/// The direction of data through a pad.
#[derive(Debug, PartialEq, Eq, Clone, Copy, Structural)]
pub enum PadDirection {
    Src,
    Sink,
}

/// A pad that is always present, and the formats of the raw video that it takes or gives.
#[derive(Debug)]
pub struct PadTemplate {
    pub name: &'static str,
    pub direction: PadDirection,
    pub formats: Vec<VideoFormat>,
}

/// The formats that are negotiated, in order of preference.
pub open spec fn accepted_formats() -> Seq<VideoFormat> {
    seq![
        VideoFormat::Rgbx,
        VideoFormat::Xrgb,
        VideoFormat::Bgrx,
        VideoFormat::Xbgr,
        VideoFormat::Rgba,
        VideoFormat::Argb,
        VideoFormat::Bgra,
        VideoFormat::Abgr,
        VideoFormat::Rgb,
        VideoFormat::Bgr,
    ]
}

fn format_list() -> (formats: Vec<VideoFormat>)
    ensures
        formats@ == accepted_formats(),
{
    let formats = vec![
        VideoFormat::Rgbx,
        VideoFormat::Xrgb,
        VideoFormat::Bgrx,
        VideoFormat::Xbgr,
        VideoFormat::Rgba,
        VideoFormat::Argb,
        VideoFormat::Bgra,
        VideoFormat::Abgr,
        VideoFormat::Rgb,
        VideoFormat::Bgr,
    ];
    assert(formats@ =~= accepted_formats());
    formats
}

impl FrameStack {
    /// The properties of the element. All of them can be changed while it is playing.
    pub fn properties() -> (specs: Vec<PropertySpec>)
        ensures
            specs@.len() == 3,
            specs@[0].describes(
                "num-frames"@,
                "Number of frames"@,
                "Number of most recent input frames combined into each output frame"@,
                PropertyKind::UInt {
                    minimum: MIN_NUM_FRAMES,
                    maximum: MAX_NUM_FRAMES,
                    default: DEFAULT_NUM_FRAMES,
                },
            ),
            specs@[1].describes(
                "mode"@,
                "Combination mode"@,
                "How to combine the last num-frames input frames into the output"@,
                PropertyKind::Mode(DEFAULT_MODE),
            ),
            specs@[2].describes(
                "passthrough-alpha"@,
                "Pass-through alpha"@,
                "When the input has an alpha channel, copy the current frame's alpha instead of accumulating it"@,
                PropertyKind::Boolean(DEFAULT_PASSTHROUGH_ALPHA),
            ),
            forall|i: int|
                0 <= i < specs@.len() ==> (#[trigger] specs@[i]).mutable_playing && property_kind(
                    specs@[i].name@,
                ) == Some(specs@[i].kind),
    {
        proof {
            lemma_property_names_distinct();
        }
        vec![
            PropertySpec {
                name: "num-frames",
                nick: "Number of frames",
                blurb: "Number of most recent input frames combined into each output frame",
                kind: PropertyKind::UInt {
                    minimum: MIN_NUM_FRAMES,
                    maximum: MAX_NUM_FRAMES,
                    default: DEFAULT_NUM_FRAMES,
                },
                mutable_playing: true,
            },
            PropertySpec {
                name: "mode",
                nick: "Combination mode",
                blurb: "How to combine the last num-frames input frames into the output",
                kind: PropertyKind::Mode(DEFAULT_MODE),
                mutable_playing: true,
            },
            PropertySpec {
                name: "passthrough-alpha",
                nick: "Pass-through alpha",
                blurb: "When the input has an alpha channel, copy the current frame's alpha instead of accumulating it",
                kind: PropertyKind::Boolean(DEFAULT_PASSTHROUGH_ALPHA),
                mutable_playing: true,
            },
        ]
    }

    /// How the element is presented to users.
    pub fn metadata() -> (metadata: ElementMetadata)
        ensures
            metadata.long_name@ == "Frame stacking accumulator"@,
            metadata.classification@ == "Filter/Effect/Video"@,
            metadata.description@
                == "Combines the last N input frames per pixel (lighten / average / linear decay) to produce light-trail / long-exposure / 'light HDR' effects"@,
            metadata.author@ == "gst-plugins-rs contributors"@,
    {
        ElementMetadata {
            long_name: "Frame stacking accumulator",
            classification: "Filter/Effect/Video",
            description:
                "Combines the last N input frames per pixel (lighten / average / linear decay) to produce light-trail / long-exposure / 'light HDR' effects",
            author: "gst-plugins-rs contributors",
        }
    }

    /// The pads: one that gives video and one that takes it, both of the same formats.
    pub fn pad_templates() -> (pads: Vec<PadTemplate>)
        ensures
            pads@.len() == 2,
            pads@[0].name@ == "src"@,
            pads@[0].direction == PadDirection::Src,
            pads@[0].formats@ == accepted_formats(),
            pads@[1].name@ == "sink"@,
            pads@[1].direction == PadDirection::Sink,
            pads@[1].formats@ == accepted_formats(),
    {
        vec![
            PadTemplate { name: "src", direction: PadDirection::Src, formats: format_list() },
            PadTemplate { name: "sink", direction: PadDirection::Sink, formats: format_list() },
        ]
    }
}

} // verus!

//! The properties of the element.
use vstd::prelude::*;

use crate::mode::FrameStackMode;

verus! {

pub const DEFAULT_NUM_FRAMES: u32 = 8;

pub const MIN_NUM_FRAMES: u32 = 1;

pub const MAX_NUM_FRAMES: u32 = 256;

pub const DEFAULT_MODE: FrameStackMode = FrameStackMode::Lighten;

pub const DEFAULT_PASSTHROUGH_ALPHA: bool = true;

/// What the properties are set to.
#[derive(Debug, PartialEq, Eq, Clone, Copy, Structural)]
pub struct Settings {
    pub num_frames: u32,
    pub mode: FrameStackMode,
    pub passthrough_alpha: bool,
}

/// The value of a property.
#[derive(Debug, PartialEq, Eq, Clone, Copy, Structural)]
pub enum PropertyValue {
    UInt(u32),
    Mode(FrameStackMode),
    Boolean(bool),
}

/// Which values a property takes, with the one that it has at first.
#[derive(Debug, PartialEq, Eq, Clone, Copy, Structural)]
pub enum PropertyKind {
    UInt { minimum: u32, maximum: u32, default: u32 },
    Mode(FrameStackMode),
    Boolean(bool),
}

impl PropertyKind {
    /// Whether `value` has the type of a property of this kind.
    pub open spec fn has_type(self, value: PropertyValue) -> bool {
        match self {
            PropertyKind::UInt { .. } => value is UInt,
            PropertyKind::Mode(_) => value is Mode,
            PropertyKind::Boolean(_) => value is Boolean,
        }
    }

    /// Whether `value` has the type of a property of this kind and is within its bounds.
    pub open spec fn accepts(self, value: PropertyValue) -> bool {
        &&& self.has_type(value)
        &&& match (self, value) {
            (PropertyKind::UInt { minimum, maximum, .. }, PropertyValue::UInt(n)) => minimum <= n
                <= maximum,
            _ => true,
        }
    }

    /// The value at first.
    pub open spec fn default_value(self) -> PropertyValue {
        match self {
            PropertyKind::UInt { default, .. } => PropertyValue::UInt(default),
            PropertyKind::Mode(default) => PropertyValue::Mode(default),
            PropertyKind::Boolean(default) => PropertyValue::Boolean(default),
        }
    }
}

/// A property: how it is named and described, its kind, and whether it can be changed while the
/// element is playing.
#[derive(Debug, Clone, Copy)]
pub struct PropertySpec {
    pub name: &'static str,
    pub nick: &'static str,
    pub blurb: &'static str,
    pub kind: PropertyKind,
    pub mutable_playing: bool,
}

/// The kind of the property with this name, `None` where there is no such property.
pub open spec fn property_kind(name: Seq<char>) -> Option<PropertyKind> {
    if name == "num-frames"@ {
        Some(
            PropertyKind::UInt {
                minimum: MIN_NUM_FRAMES,
                maximum: MAX_NUM_FRAMES,
                default: DEFAULT_NUM_FRAMES,
            },
        )
    } else if name == "mode"@ {
        Some(PropertyKind::Mode(DEFAULT_MODE))
    } else if name == "passthrough-alpha"@ {
        Some(PropertyKind::Boolean(DEFAULT_PASSTHROUGH_ALPHA))
    } else {
        None
    }
}

impl PropertySpec {
    /// What the property is named and described as, and of what kind it is.
    pub open spec fn describes(
        self,
        name: Seq<char>,
        nick: Seq<char>,
        blurb: Seq<char>,
        kind: PropertyKind,
    ) -> bool {
        &&& self.name@ == name
        &&& self.nick@ == nick
        &&& self.blurb@ == blurb
        &&& self.kind == kind
    }
}

/// The names of the three properties differ from each other.
pub proof fn lemma_property_names_distinct()
    ensures
        "num-frames"@ != "mode"@,
        "num-frames"@ != "passthrough-alpha"@,
        "mode"@ != "passthrough-alpha"@,
{
    reveal_strlit("num-frames");
    reveal_strlit("mode");
    reveal_strlit("passthrough-alpha");
    assert("num-frames"@.len() == 10);
    assert("mode"@.len() == 4);
    assert("passthrough-alpha"@.len() == 17);
}

fn same_text(a: &str, b: &str) -> (same: bool)
    ensures
        same == (a@ == b@),
{
    a.to_owned() == b.to_owned()
}

impl Default for Settings {
    fn default() -> (settings: Self)
        ensures
            settings == (Settings {
                num_frames: DEFAULT_NUM_FRAMES,
                mode: DEFAULT_MODE,
                passthrough_alpha: DEFAULT_PASSTHROUGH_ALPHA,
            }),
            settings.num_frames == 8,
            settings.mode == FrameStackMode::Lighten,
            settings.passthrough_alpha,
    {
        Settings {
            num_frames: DEFAULT_NUM_FRAMES,
            mode: DEFAULT_MODE,
            passthrough_alpha: DEFAULT_PASSTHROUGH_ALPHA,
        }
    }
}

impl Settings {
    /// The number of frames is one that the property takes.
    pub open spec fn wf(self) -> bool {
        MIN_NUM_FRAMES <= self.num_frames <= MAX_NUM_FRAMES
    }

    /// These settings with the property `name` changed to `value`, which has its type.
    pub open spec fn with(self, name: Seq<char>, value: PropertyValue) -> Settings {
        if name == "num-frames"@ {
            Settings { num_frames: value->UInt_0, ..self }
        } else if name == "mode"@ {
            Settings { mode: value->Mode_0, ..self }
        } else {
            Settings { passthrough_alpha: value->Boolean_0, ..self }
        }
    }

    /// The value of one property.
    pub open spec fn value(self, name: Seq<char>) -> PropertyValue {
        if name == "num-frames"@ {
            PropertyValue::UInt(self.num_frames)
        } else if name == "mode"@ {
            PropertyValue::Mode(self.mode)
        } else {
            PropertyValue::Boolean(self.passthrough_alpha)
        }
    }

    /// Change a property. Its bounds are not looked at here; within them, good settings stay good.
    pub fn set_property(&mut self, name: &str, value: PropertyValue)
        requires
            property_kind(name@) matches Some(kind) && kind.has_type(value),
        ensures
            *final(self) == old(self).with(name@, value),
            name@ == "num-frames"@ ==> final(self).num_frames == value->UInt_0 && final(self).mode
                == old(self).mode && final(self).passthrough_alpha == old(self).passthrough_alpha,
            name@ == "mode"@ ==> final(self).mode == value->Mode_0 && final(self).num_frames
                == old(self).num_frames && final(self).passthrough_alpha == old(self).passthrough_alpha,
            name@ == "passthrough-alpha"@ ==> final(self).passthrough_alpha == value->Boolean_0
                && final(self).num_frames == old(self).num_frames && final(self).mode == old(self).mode,
            old(self).wf() && property_kind(name@)->0.accepts(value) ==> final(self).wf(),
    {
        proof {
            lemma_property_names_distinct();
        }
        if same_text(name, "num-frames") {
            if let PropertyValue::UInt(num_frames) = value {
                self.num_frames = num_frames;
            }
        } else if same_text(name, "mode") {
            if let PropertyValue::Mode(mode) = value {
                self.mode = mode;
            }
        } else {
            if let PropertyValue::Boolean(passthrough_alpha) = value {
                self.passthrough_alpha = passthrough_alpha;
            }
        }
    }

    /// The value of a property.
    pub fn property(&self, name: &str) -> (value: PropertyValue)
        requires
            property_kind(name@) is Some,
        ensures
            value == self.value(name@),
            name@ == "num-frames"@ ==> value == PropertyValue::UInt(self.num_frames),
            name@ == "mode"@ ==> value == PropertyValue::Mode(self.mode),
            name@ == "passthrough-alpha"@ ==> value == PropertyValue::Boolean(
                self.passthrough_alpha,
            ),
    {
        proof {
            lemma_property_names_distinct();
        }
        if same_text(name, "num-frames") {
            PropertyValue::UInt(self.num_frames)
        } else if same_text(name, "mode") {
            PropertyValue::Mode(self.mode)
        } else {
            PropertyValue::Boolean(self.passthrough_alpha)
        }
    }
}

} // verus!

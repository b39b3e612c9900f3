//! Decoders for the data components carried inside a QTM data frame.
//!
//! The protocol transmits positions, rotations and samples as IEEE-754 single
//! precision floats. The decoders keep each such field as its 32 bit pattern
//! (`u32`), exactly as it arrived; `f32::from_bits` turns it into a float.

use vstd::prelude::*;
use vstd::slice::slice_to_vec;

use crate::cursor::{count_error, u32_at, ByteOrder, Cursor};
use crate::error::{Error, Result};

pub mod analog;
pub mod bodies;
pub mod markers;
pub mod media;
pub mod skeleton;
pub mod timecode;

pub use analog::{Analog, AnalogDevice, Force, ForcePlate, ForceSample};
pub use bodies::{Bodies6d, Bodies6dEuler, Body6d, Body6dEuler};
pub use markers::{Camera2d, Marker, Marker2d, Markers2d, Markers3d};
pub use media::{
    EyeTracker, EyeTrackerSample, EyeTrackers, GazeVector, GazeVectorSample, GazeVectors, Image,
    ImageFormat, Images,
};
pub use skeleton::{Segment, Skeleton, Skeletons};
pub use timecode::{CameraTime, IrigTime, SmpteTime, Timecode, Timecodes};

use analog::{
    analog_first_bad, analog_of, analog_ok, analog_overflow_text, analog_overrun, analog_short_error,
    analog_single_error, analog_single_of, analog_single_ok, force_error, force_of, force_ok,
    force_single_of, force_single_ok,
};
use bodies::{
    bodies6d_euler_of, bodies6d_euler_ok, bodies6d_of, bodies6d_ok, body6d_euler_stride, body6d_stride,
};
use markers::{
    counted_records_error, marker3d_stride, markers2d_error, markers2d_of, markers2d_ok, markers3d_of,
    markers3d_ok,
};
use media::{
    eye_trackers_of, gaze_vectors_of, image_first_bad, image_overflow_text, image_overrun,
    image_short_error, images_of, images_ok, sampled_error, sampled_ok,
};
use skeleton::{skeletons_error, skeletons_of, skeletons_ok};
use timecode::{timecodes_of, timecodes_ok};

verus! {

/// A point in 3D space, in millimetres, as the bit patterns of three single
/// precision floats.
#[derive(Debug, Clone, Copy, PartialEq, Eq, Structural, Default)]
pub struct Point {
    pub x: u32,
    pub y: u32,
    pub z: u32,
}

impl Point {
    /// Builds a point from the bit patterns of its three coordinates.
    pub fn new(x: u32, y: u32, z: u32) -> (p: Self)
        ensures
            p == (Point { x, y, z }),
    {
        Point { x, y, z }
    }
}

/// Identifies a component both on the wire and in the streaming command.
///
/// The wire codes are given by [`ComponentType::as_u32`].
#[derive(Debug, Clone, Copy, PartialEq, Eq, Structural, Hash)]
pub enum ComponentType {
    Markers3d,
    Markers3dNoLabels,
    Analog,
    Force,
    Bodies6d,
    Bodies6dEuler,
    Markers2d,
    Markers2dLinearized,
    Markers3dResidual,
    Markers3dNoLabelsResidual,
    Bodies6dResidual,
    Bodies6dEulerResidual,
    AnalogSingle,
    Image,
    ForceSingle,
    GazeVector,
    Timecode,
    Skeleton,
    EyeTracker,
}

/// The wire code of each component type.
pub open spec fn component_code(c: ComponentType) -> u32 {
    match c {
        ComponentType::Markers3d => 1,
        ComponentType::Markers3dNoLabels => 2,
        ComponentType::Analog => 3,
        ComponentType::Force => 4,
        ComponentType::Bodies6d => 5,
        ComponentType::Bodies6dEuler => 6,
        ComponentType::Markers2d => 7,
        ComponentType::Markers2dLinearized => 8,
        ComponentType::Markers3dResidual => 9,
        ComponentType::Markers3dNoLabelsResidual => 10,
        ComponentType::Bodies6dResidual => 11,
        ComponentType::Bodies6dEulerResidual => 12,
        ComponentType::AnalogSingle => 13,
        ComponentType::Image => 14,
        ComponentType::ForceSingle => 15,
        ComponentType::GazeVector => 16,
        ComponentType::Timecode => 17,
        ComponentType::Skeleton => 18,
        ComponentType::EyeTracker => 19,
    }
}

/// The component type a wire code names, if any.
pub open spec fn component_of_code(v: u32) -> Option<ComponentType> {
    if v == 1 {
        Some(ComponentType::Markers3d)
    } else if v == 2 {
        Some(ComponentType::Markers3dNoLabels)
    } else if v == 3 {
        Some(ComponentType::Analog)
    } else if v == 4 {
        Some(ComponentType::Force)
    } else if v == 5 {
        Some(ComponentType::Bodies6d)
    } else if v == 6 {
        Some(ComponentType::Bodies6dEuler)
    } else if v == 7 {
        Some(ComponentType::Markers2d)
    } else if v == 8 {
        Some(ComponentType::Markers2dLinearized)
    } else if v == 9 {
        Some(ComponentType::Markers3dResidual)
    } else if v == 10 {
        Some(ComponentType::Markers3dNoLabelsResidual)
    } else if v == 11 {
        Some(ComponentType::Bodies6dResidual)
    } else if v == 12 {
        Some(ComponentType::Bodies6dEulerResidual)
    } else if v == 13 {
        Some(ComponentType::AnalogSingle)
    } else if v == 14 {
        Some(ComponentType::Image)
    } else if v == 15 {
        Some(ComponentType::ForceSingle)
    } else if v == 16 {
        Some(ComponentType::GazeVector)
    } else if v == 17 {
        Some(ComponentType::Timecode)
    } else if v == 18 {
        Some(ComponentType::Skeleton)
    } else if v == 19 {
        Some(ComponentType::EyeTracker)
    } else {
        None
    }
}

/// The token QTM accepts for each component in `StreamFrames` and
/// `GetCurrentFrame`.
pub open spec fn component_wire_name(c: ComponentType) -> Seq<char> {
    match c {
        ComponentType::Markers2d => "2D"@,
        ComponentType::Markers2dLinearized => "2DLin"@,
        ComponentType::Markers3d => "3D"@,
        ComponentType::Markers3dResidual => "3DRes"@,
        ComponentType::Markers3dNoLabels => "3DNoLabels"@,
        ComponentType::Markers3dNoLabelsResidual => "3DNoLabelsRes"@,
        ComponentType::Bodies6d => "6D"@,
        ComponentType::Bodies6dResidual => "6DRes"@,
        ComponentType::Bodies6dEuler => "6DEuler"@,
        ComponentType::Bodies6dEulerResidual => "6DEulerRes"@,
        ComponentType::Analog => "Analog"@,
        ComponentType::AnalogSingle => "AnalogSingle"@,
        ComponentType::Force => "Force"@,
        ComponentType::ForceSingle => "ForceSingle"@,
        ComponentType::GazeVector => "GazeVector"@,
        ComponentType::EyeTracker => "EyeTracker"@,
        ComponentType::Image => "Image"@,
        ComponentType::Timecode => "Timecode"@,
        ComponentType::Skeleton => "Skeleton"@,
    }
}

/// The length and first character of a component's wire name, which
/// together already tell the components apart.
spec fn wire_key(c: ComponentType) -> (nat, char) {
    match c {
        ComponentType::Markers2d => (2, '2'),
        ComponentType::Markers2dLinearized => (5, '2'),
        ComponentType::Markers3d => (2, '3'),
        ComponentType::Markers3dResidual => (5, '3'),
        ComponentType::Markers3dNoLabels => (10, '3'),
        ComponentType::Markers3dNoLabelsResidual => (13, '3'),
        ComponentType::Bodies6d => (2, '6'),
        ComponentType::Bodies6dResidual => (5, '6'),
        ComponentType::Bodies6dEuler => (7, '6'),
        ComponentType::Bodies6dEulerResidual => (10, '6'),
        ComponentType::Analog => (6, 'A'),
        ComponentType::AnalogSingle => (12, 'A'),
        ComponentType::Force => (5, 'F'),
        ComponentType::ForceSingle => (11, 'F'),
        ComponentType::GazeVector => (10, 'G'),
        ComponentType::EyeTracker => (10, 'E'),
        ComponentType::Image => (5, 'I'),
        ComponentType::Timecode => (8, 'T'),
        ComponentType::Skeleton => (8, 'S'),
    }
}

/// Every wire name is a single non-empty token, holding no space (which
/// separates components in a command) and no colon (which introduces a
/// component's options), and it starts as `wire_key` says.
proof fn lemma_wire_name_shape(c: ComponentType)
    ensures
        component_wire_name(c).len() == wire_key(c).0,
        component_wire_name(c).len() > 0,
        component_wire_name(c)[0] == wire_key(c).1,
        forall|i: int|
            0 <= i < component_wire_name(c).len() ==> #[trigger] component_wire_name(c)[i] != ' '
                && component_wire_name(c)[i] != ':',
{
    reveal_strlit("2D");
    reveal_strlit("2DLin");
    reveal_strlit("3D");
    reveal_strlit("3DRes");
    reveal_strlit("3DNoLabels");
    reveal_strlit("3DNoLabelsRes");
    reveal_strlit("6D");
    reveal_strlit("6DRes");
    reveal_strlit("6DEuler");
    reveal_strlit("6DEulerRes");
    reveal_strlit("Analog");
    reveal_strlit("AnalogSingle");
    reveal_strlit("Force");
    reveal_strlit("ForceSingle");
    reveal_strlit("GazeVector");
    reveal_strlit("EyeTracker");
    reveal_strlit("Image");
    reveal_strlit("Timecode");
    reveal_strlit("Skeleton");
}

/// Every component has its own wire name, and each name is a single
/// non-empty token: it holds no space, which separates components in a
/// command, and no colon, which introduces a component's options.
pub proof fn lemma_wire_names_distinct(a: ComponentType, b: ComponentType)
    ensures
        a != b ==> component_wire_name(a) != component_wire_name(b),
        component_wire_name(a).len() > 0,
        forall|i: int|
            0 <= i < component_wire_name(a).len() ==> #[trigger] component_wire_name(a)[i] != ' '
                && component_wire_name(a)[i] != ':',
{
    lemma_wire_name_shape(a);
    lemma_wire_name_shape(b);
}

impl ComponentType {
    /// The component's name, as it is displayed: its wire name.
    pub fn to_string(&self) -> (r: String)
        ensures
            r@ == component_wire_name(*self),
    {
        self.wire_name().to_string()
    }

    /// The token QTM accepts for this component in `StreamFrames` and
    /// `GetCurrentFrame`.
    pub fn wire_name(self) -> (r: &'static str)
        ensures
            r@ == component_wire_name(self),
    {
        match self {
            ComponentType::Markers2d => "2D",
            ComponentType::Markers2dLinearized => "2DLin",
            ComponentType::Markers3d => "3D",
            ComponentType::Markers3dResidual => "3DRes",
            ComponentType::Markers3dNoLabels => "3DNoLabels",
            ComponentType::Markers3dNoLabelsResidual => "3DNoLabelsRes",
            ComponentType::Bodies6d => "6D",
            ComponentType::Bodies6dResidual => "6DRes",
            ComponentType::Bodies6dEuler => "6DEuler",
            ComponentType::Bodies6dEulerResidual => "6DEulerRes",
            ComponentType::Analog => "Analog",
            ComponentType::AnalogSingle => "AnalogSingle",
            ComponentType::Force => "Force",
            ComponentType::ForceSingle => "ForceSingle",
            ComponentType::GazeVector => "GazeVector",
            ComponentType::EyeTracker => "EyeTracker",
            ComponentType::Image => "Image",
            ComponentType::Timecode => "Timecode",
            ComponentType::Skeleton => "Skeleton",
        }
    }

    /// The wire code of this component type.
    pub fn as_u32(self) -> (r: u32)
        ensures
            r == component_code(self),
    {
        match self {
            ComponentType::Markers3d => 1,
            ComponentType::Markers3dNoLabels => 2,
            ComponentType::Analog => 3,
            ComponentType::Force => 4,
            ComponentType::Bodies6d => 5,
            ComponentType::Bodies6dEuler => 6,
            ComponentType::Markers2d => 7,
            ComponentType::Markers2dLinearized => 8,
            ComponentType::Markers3dResidual => 9,
            ComponentType::Markers3dNoLabelsResidual => 10,
            ComponentType::Bodies6dResidual => 11,
            ComponentType::Bodies6dEulerResidual => 12,
            ComponentType::AnalogSingle => 13,
            ComponentType::Image => 14,
            ComponentType::ForceSingle => 15,
            ComponentType::GazeVector => 16,
            ComponentType::Timecode => 17,
            ComponentType::Skeleton => 18,
            ComponentType::EyeTracker => 19,
        }
    }
}

impl TryFrom<u32> for ComponentType {
    type Error = u32;

    fn try_from(value: u32) -> (r: std::result::Result<Self, u32>) {
        match value {
            1 => Ok(ComponentType::Markers3d),
            2 => Ok(ComponentType::Markers3dNoLabels),
            3 => Ok(ComponentType::Analog),
            4 => Ok(ComponentType::Force),
            5 => Ok(ComponentType::Bodies6d),
            6 => Ok(ComponentType::Bodies6dEuler),
            7 => Ok(ComponentType::Markers2d),
            8 => Ok(ComponentType::Markers2dLinearized),
            9 => Ok(ComponentType::Markers3dResidual),
            10 => Ok(ComponentType::Markers3dNoLabelsResidual),
            11 => Ok(ComponentType::Bodies6dResidual),
            12 => Ok(ComponentType::Bodies6dEulerResidual),
            13 => Ok(ComponentType::AnalogSingle),
            14 => Ok(ComponentType::Image),
            15 => Ok(ComponentType::ForceSingle),
            16 => Ok(ComponentType::GazeVector),
            17 => Ok(ComponentType::Timecode),
            18 => Ok(ComponentType::Skeleton),
            19 => Ok(ComponentType::EyeTracker),
            other => Err(other),
        }
    }
}

impl vstd::std_specs::convert::TryFromSpecImpl<u32> for ComponentType {
    open spec fn obeys_try_from_spec() -> bool {
        true
    }

    open spec fn try_from_spec(v: u32) -> std::result::Result<Self, u32> {
        match component_of_code(v) {
            Some(c) => Ok(c),
            None => Err(v),
        }
    }
}

/// A component type's wire code names that component type and no other.
pub proof fn lemma_component_code_roundtrip(c: ComponentType)
    ensures
        component_of_code(component_code(c)) == Some(c),
{
}

/// Every code that names a component type is that type's wire code.
pub proof fn lemma_component_code_onto(v: u32)
    ensures
        component_of_code(v) matches Some(c) ==> component_code(c) == v,
        component_of_code(v) is Some <==> 1 <= v <= 19,
{
}

/// One decoded component from a data frame.
///
/// Modelling this as a sum type rather than a struct with one optional field
/// per component means a frame can only ever hold data that is actually
/// present, and matching on it is exhaustive.
#[derive(Debug, Clone, PartialEq, Eq)]
pub enum Component {
    Markers3d(Markers3d),
    Markers3dResidual(Markers3d),
    Markers3dNoLabels(Markers3d),
    Markers3dNoLabelsResidual(Markers3d),
    Bodies6d(Bodies6d),
    Bodies6dResidual(Bodies6d),
    Bodies6dEuler(Bodies6dEuler),
    Bodies6dEulerResidual(Bodies6dEuler),
    Markers2d(Markers2d),
    Markers2dLinearized(Markers2d),
    Analog(Analog),
    AnalogSingle(Analog),
    Force(Force),
    ForceSingle(Force),
    Image(Images),
    GazeVector(GazeVectors),
    Timecode(Timecodes),
    Skeleton(Skeletons),
    EyeTracker(EyeTrackers),
    /// A component this build of the crate does not know how to decode.
    ///
    /// Newer QTM releases add components. Preserving the raw bytes instead of
    /// failing the whole frame means a client keeps working against a server
    /// that has moved ahead of it.
    Unknown { component_type: u32, data: Vec<u8> },
}

/// The type tag of a component, or `None` for an unrecognised one.
pub open spec fn component_kind(c: Component) -> Option<ComponentType> {
    match c {
        Component::Markers3d(_) => Some(ComponentType::Markers3d),
        Component::Markers3dResidual(_) => Some(ComponentType::Markers3dResidual),
        Component::Markers3dNoLabels(_) => Some(ComponentType::Markers3dNoLabels),
        Component::Markers3dNoLabelsResidual(_) => Some(ComponentType::Markers3dNoLabelsResidual),
        Component::Bodies6d(_) => Some(ComponentType::Bodies6d),
        Component::Bodies6dResidual(_) => Some(ComponentType::Bodies6dResidual),
        Component::Bodies6dEuler(_) => Some(ComponentType::Bodies6dEuler),
        Component::Bodies6dEulerResidual(_) => Some(ComponentType::Bodies6dEulerResidual),
        Component::Markers2d(_) => Some(ComponentType::Markers2d),
        Component::Markers2dLinearized(_) => Some(ComponentType::Markers2dLinearized),
        Component::Analog(_) => Some(ComponentType::Analog),
        Component::AnalogSingle(_) => Some(ComponentType::AnalogSingle),
        Component::Force(_) => Some(ComponentType::Force),
        Component::ForceSingle(_) => Some(ComponentType::ForceSingle),
        Component::Image(_) => Some(ComponentType::Image),
        Component::GazeVector(_) => Some(ComponentType::GazeVector),
        Component::Timecode(_) => Some(ComponentType::Timecode),
        Component::Skeleton(_) => Some(ComponentType::Skeleton),
        Component::EyeTracker(_) => Some(ComponentType::EyeTracker),
        Component::Unknown { .. } => None,
    }
}

/// True when `s` is a well-formed payload of a component with wire code
/// `code`. A code this crate does not know is always accepted.
pub open spec fn component_ok(code: u32, s: Seq<u8>, order: ByteOrder) -> bool {
    match component_of_code(code) {
        None => true,
        Some(kind) => match kind {
            ComponentType::Markers3d => markers3d_ok(order, s, false, false),
            ComponentType::Markers3dResidual => markers3d_ok(order, s, false, true),
            ComponentType::Markers3dNoLabels => markers3d_ok(order, s, true, false),
            ComponentType::Markers3dNoLabelsResidual => markers3d_ok(order, s, true, true),
            ComponentType::Bodies6d => bodies6d_ok(order, s, false),
            ComponentType::Bodies6dResidual => bodies6d_ok(order, s, true),
            ComponentType::Bodies6dEuler => bodies6d_euler_ok(order, s, false),
            ComponentType::Bodies6dEulerResidual => bodies6d_euler_ok(order, s, true),
            ComponentType::Markers2d => markers2d_ok(order, s),
            ComponentType::Markers2dLinearized => markers2d_ok(order, s),
            ComponentType::Analog => analog_ok(order, s),
            ComponentType::AnalogSingle => analog_single_ok(order, s),
            ComponentType::Force => force_ok(order, s),
            ComponentType::ForceSingle => force_single_ok(order, s),
            ComponentType::Image => images_ok(order, s),
            ComponentType::GazeVector => sampled_ok(order, s, 24),
            ComponentType::Timecode => timecodes_ok(order, s),
            ComponentType::Skeleton => skeletons_ok(order, s),
            ComponentType::EyeTracker => sampled_ok(order, s, 8),
        },
    }
}

/// What decoding the malformed payload `s` of a component with wire code
/// `code` reports, the payload being read from its first byte.
pub open spec fn component_error_ok(code: u32, s: Seq<u8>, order: ByteOrder, e: Error) -> bool {
    match component_of_code(code) {
        None => false,
        Some(kind) => match kind {
            ComponentType::Markers3d => e == counted_records_error(order, s, 0, marker3d_stride(false, false)),
            ComponentType::Markers3dResidual => e == counted_records_error(
                order,
                s,
                0,
                marker3d_stride(false, true),
            ),
            ComponentType::Markers3dNoLabels => e == counted_records_error(
                order,
                s,
                0,
                marker3d_stride(true, false),
            ),
            ComponentType::Markers3dNoLabelsResidual => e == counted_records_error(
                order,
                s,
                0,
                marker3d_stride(true, true),
            ),
            ComponentType::Bodies6d => e == counted_records_error(order, s, 0, body6d_stride(false)),
            ComponentType::Bodies6dResidual => e == counted_records_error(order, s, 0, body6d_stride(true)),
            ComponentType::Bodies6dEuler => e == counted_records_error(
                order,
                s,
                0,
                body6d_euler_stride(false),
            ),
            ComponentType::Bodies6dEulerResidual => e == counted_records_error(
                order,
                s,
                0,
                body6d_euler_stride(true),
            ),
            ComponentType::Markers2d => e == markers2d_error(order, s, 0),
            ComponentType::Markers2dLinearized => e == markers2d_error(order, s, 0),
            ComponentType::Analog => {
                let o = analog_first_bad(order, s);
                if analog_overrun(order, s) {
                    e is MalformedFrame && e->MalformedFrame_0@ == analog_overflow_text(
                        u32_at(order, s, o),
                        u32_at(order, s, o + 4),
                        u32_at(order, s, o + 8),
                        (s.len() - (o + 16)) as nat,
                    )
                } else {
                    e == analog_short_error(order, s, 0)
                }
            },
            ComponentType::AnalogSingle => e == analog_single_error(order, s, 0),
            ComponentType::Force => e == force_error(order, s, 0),
            ComponentType::ForceSingle => e == count_error(order, s, 0, 40),
            ComponentType::Image => {
                let o = image_first_bad(order, s);
                if image_overrun(order, s) {
                    e is MalformedFrame && e->MalformedFrame_0@ == image_overflow_text(
                        u32_at(order, s, o),
                        u32_at(order, s, o + 32),
                        (s.len() - (o + 36)) as nat,
                    )
                } else {
                    e == image_short_error(order, s, 0)
                }
            },
            ComponentType::GazeVector => e == sampled_error(order, s, 0, 24),
            ComponentType::Timecode => e == count_error(order, s, 0, 12),
            ComponentType::Skeleton => e == skeletons_error(order, s, 0),
            ComponentType::EyeTracker => e == sampled_error(order, s, 0, 8),
        },
    }
}

/// `c` is what the well-formed payload `s` of a component with wire code
/// `code` decodes to.
pub open spec fn component_of(code: u32, s: Seq<u8>, order: ByteOrder, c: Component) -> bool {
    match component_of_code(code) {
        None => c matches Component::Unknown { component_type, data } && component_type == code
            && data@ == s,
        Some(kind) => match kind {
            ComponentType::Markers3d => c matches Component::Markers3d(m) && markers3d_of(
                order,
                s,
                false,
                false,
                m,
            ),
            ComponentType::Markers3dResidual => c matches Component::Markers3dResidual(m)
                && markers3d_of(order, s, false, true, m),
            ComponentType::Markers3dNoLabels => c matches Component::Markers3dNoLabels(m)
                && markers3d_of(order, s, true, false, m),
            ComponentType::Markers3dNoLabelsResidual => c matches Component::Markers3dNoLabelsResidual(
                m,
            ) && markers3d_of(order, s, true, true, m),
            ComponentType::Bodies6d => c matches Component::Bodies6d(m) && bodies6d_of(
                order,
                s,
                false,
                m,
            ),
            ComponentType::Bodies6dResidual => c matches Component::Bodies6dResidual(m)
                && bodies6d_of(order, s, true, m),
            ComponentType::Bodies6dEuler => c matches Component::Bodies6dEuler(m)
                && bodies6d_euler_of(order, s, false, m),
            ComponentType::Bodies6dEulerResidual => c matches Component::Bodies6dEulerResidual(m)
                && bodies6d_euler_of(order, s, true, m),
            ComponentType::Markers2d => c matches Component::Markers2d(m) && markers2d_of(
                order,
                s,
                m,
            ),
            ComponentType::Markers2dLinearized => c matches Component::Markers2dLinearized(m)
                && markers2d_of(order, s, m),
            ComponentType::Analog => c matches Component::Analog(m) && analog_of(order, s, m),
            ComponentType::AnalogSingle => c matches Component::AnalogSingle(m)
                && analog_single_of(order, s, m),
            ComponentType::Force => c matches Component::Force(m) && force_of(order, s, m),
            ComponentType::ForceSingle => c matches Component::ForceSingle(m) && force_single_of(
                order,
                s,
                m,
            ),
            ComponentType::Image => c matches Component::Image(m) && images_of(order, s, m),
            ComponentType::GazeVector => c matches Component::GazeVector(m) && gaze_vectors_of(
                order,
                s,
                m,
            ),
            ComponentType::Timecode => c matches Component::Timecode(m) && timecodes_of(
                order,
                s,
                m,
            ),
            ComponentType::Skeleton => c matches Component::Skeleton(m) && skeletons_of(
                order,
                s,
                m,
            ),
            ComponentType::EyeTracker => c matches Component::EyeTracker(m) && eye_trackers_of(
                order,
                s,
                m,
            ),
        },
    }
}

impl Component {
    /// The component's type tag, or `None` for an unrecognised component.
    pub fn component_type(&self) -> (r: Option<ComponentType>)
        ensures
            r == component_kind(*self),
    {
        match self {
            Component::Markers3d(_) => Some(ComponentType::Markers3d),
            Component::Markers3dResidual(_) => Some(ComponentType::Markers3dResidual),
            Component::Markers3dNoLabels(_) => Some(ComponentType::Markers3dNoLabels),
            Component::Markers3dNoLabelsResidual(_) => Some(
                ComponentType::Markers3dNoLabelsResidual,
            ),
            Component::Bodies6d(_) => Some(ComponentType::Bodies6d),
            Component::Bodies6dResidual(_) => Some(ComponentType::Bodies6dResidual),
            Component::Bodies6dEuler(_) => Some(ComponentType::Bodies6dEuler),
            Component::Bodies6dEulerResidual(_) => Some(ComponentType::Bodies6dEulerResidual),
            Component::Markers2d(_) => Some(ComponentType::Markers2d),
            Component::Markers2dLinearized(_) => Some(ComponentType::Markers2dLinearized),
            Component::Analog(_) => Some(ComponentType::Analog),
            Component::AnalogSingle(_) => Some(ComponentType::AnalogSingle),
            Component::Force(_) => Some(ComponentType::Force),
            Component::ForceSingle(_) => Some(ComponentType::ForceSingle),
            Component::Image(_) => Some(ComponentType::Image),
            Component::GazeVector(_) => Some(ComponentType::GazeVector),
            Component::Timecode(_) => Some(ComponentType::Timecode),
            Component::Skeleton(_) => Some(ComponentType::Skeleton),
            Component::EyeTracker(_) => Some(ComponentType::EyeTracker),
            Component::Unknown { .. } => None,
        }
    }

    /// Decodes a component payload. `payload` must be exactly the component's
    /// own bytes, excluding its 8 byte size and type header.
    pub fn decode(component_type: u32, payload: &[u8], order: ByteOrder) -> (r: Result<Component>)
        ensures
            r is Ok <==> component_ok(component_type, payload@, order),
            r matches Ok(c) ==> component_of(component_type, payload@, order, c),
            r matches Err(e) ==> component_error_ok(component_type, payload@, order, e),
    {
        let kind = match ComponentType::try_from(component_type) {
            Ok(kind) => kind,
            Err(_) => {
                return Ok(Component::Unknown { component_type, data: slice_to_vec(payload) });
            },
        };

        let mut c = Cursor::new(payload, order);
        proof {
            assert(c.rest() =~= payload@);
        }
        match kind {
            ComponentType::Markers3d => match Markers3d::decode(&mut c, false, false) {
                Ok(m) => Ok(Component::Markers3d(m)),
                Err(e) => Err(e),
            },
            ComponentType::Markers3dResidual => match Markers3d::decode(&mut c, false, true) {
                Ok(m) => Ok(Component::Markers3dResidual(m)),
                Err(e) => Err(e),
            },
            ComponentType::Markers3dNoLabels => match Markers3d::decode(&mut c, true, false) {
                Ok(m) => Ok(Component::Markers3dNoLabels(m)),
                Err(e) => Err(e),
            },
            ComponentType::Markers3dNoLabelsResidual => match Markers3d::decode(&mut c, true, true) {
                Ok(m) => Ok(Component::Markers3dNoLabelsResidual(m)),
                Err(e) => Err(e),
            },
            ComponentType::Bodies6d => match Bodies6d::decode(&mut c, false) {
                Ok(m) => Ok(Component::Bodies6d(m)),
                Err(e) => Err(e),
            },
            ComponentType::Bodies6dResidual => match Bodies6d::decode(&mut c, true) {
                Ok(m) => Ok(Component::Bodies6dResidual(m)),
                Err(e) => Err(e),
            },
            ComponentType::Bodies6dEuler => match Bodies6dEuler::decode(&mut c, false) {
                Ok(m) => Ok(Component::Bodies6dEuler(m)),
                Err(e) => Err(e),
            },
            ComponentType::Bodies6dEulerResidual => match Bodies6dEuler::decode(&mut c, true) {
                Ok(m) => Ok(Component::Bodies6dEulerResidual(m)),
                Err(e) => Err(e),
            },
            ComponentType::Markers2d => match Markers2d::decode(&mut c) {
                Ok(m) => Ok(Component::Markers2d(m)),
                Err(e) => Err(e),
            },
            ComponentType::Markers2dLinearized => match Markers2d::decode(&mut c) {
                Ok(m) => Ok(Component::Markers2dLinearized(m)),
                Err(e) => Err(e),
            },
            ComponentType::Analog => match Analog::decode(&mut c) {
                Ok(m) => Ok(Component::Analog(m)),
                Err(e) => Err(e),
            },
            ComponentType::AnalogSingle => match Analog::decode_single(&mut c) {
                Ok(m) => Ok(Component::AnalogSingle(m)),
                Err(e) => Err(e),
            },
            ComponentType::Force => match Force::decode(&mut c) {
                Ok(m) => Ok(Component::Force(m)),
                Err(e) => Err(e),
            },
            ComponentType::ForceSingle => match Force::decode_single(&mut c) {
                Ok(m) => Ok(Component::ForceSingle(m)),
                Err(e) => Err(e),
            },
            ComponentType::Image => match Images::decode(&mut c) {
                Ok(m) => Ok(Component::Image(m)),
                Err(e) => Err(e),
            },
            ComponentType::GazeVector => match GazeVectors::decode(&mut c) {
                Ok(m) => Ok(Component::GazeVector(m)),
                Err(e) => Err(e),
            },
            ComponentType::Timecode => match Timecodes::decode(&mut c) {
                Ok(m) => Ok(Component::Timecode(m)),
                Err(e) => Err(e),
            },
            ComponentType::Skeleton => match Skeletons::decode(&mut c) {
                Ok(m) => Ok(Component::Skeleton(m)),
                Err(e) => Err(e),
            },
            ComponentType::EyeTracker => match EyeTrackers::decode(&mut c) {
                Ok(m) => Ok(Component::EyeTracker(m)),
                Err(e) => Err(e),
            },
        }
    }
}

/// A decoded component carries the type tag of the wire code it was decoded
/// under, and an unknown code yields an unknown component.
pub proof fn lemma_decoded_component_kind(code: u32, s: Seq<u8>, order: ByteOrder, c: Component)
    requires
        component_of(code, s, order, c),
    ensures
        component_kind(c) == component_of_code(code),
{
}

} // verus!

//! The font that a recording was made for.

use vstd::prelude::*;

verus! {

/// The flight controller firmware whose font the OSD was drawn with.
#[derive(Debug, Clone, Copy, PartialEq, Eq, Structural, Hash)]
pub enum FontVariant {
    Generic,
    Ardupilot,
    Betaflight,
    INAV,
    KISSUltra,
    Unknown,
}

impl FontVariant {
    /// The font variant that the identifier in a file header stands for.
    pub open spec fn spec_from_id(id: u8) -> FontVariant {
        if id == 0 {
            FontVariant::Generic
        } else if id == 1 {
            FontVariant::Betaflight
        } else if id == 2 {
            FontVariant::INAV
        } else if id == 3 {
            FontVariant::Ardupilot
        } else if id == 4 {
            FontVariant::KISSUltra
        } else {
            FontVariant::Unknown
        }
    }

    /// The name of the font variant, as shown to the user.
    pub open spec fn spec_name(&self) -> Seq<char> {
        match self {
            FontVariant::Generic => "Generic"@,
            FontVariant::Ardupilot => "Ardupilot"@,
            FontVariant::Betaflight => "Betaflight"@,
            FontVariant::INAV => "INAV"@,
            FontVariant::KISSUltra => "KISS Ultra"@,
            FontVariant::Unknown => "Unknown"@,
        }
    }

    #[verifier::when_used_as_spec(spec_from_id)]
    pub fn from_id(id: u8) -> (font_variant: FontVariant)
        ensures
            font_variant == Self::spec_from_id(id),
    {
        match id {
            0 => FontVariant::Generic,
            1 => FontVariant::Betaflight,
            2 => FontVariant::INAV,
            3 => FontVariant::Ardupilot,
            4 => FontVariant::KISSUltra,
            _ => FontVariant::Unknown,
        }
    }

    pub fn name(&self) -> (name: &'static str)
        ensures
            name@ == self.spec_name(),
    {
        match self {
            FontVariant::Generic => "Generic",
            FontVariant::Ardupilot => "Ardupilot",
            FontVariant::Betaflight => "Betaflight",
            FontVariant::INAV => "INAV",
            FontVariant::KISSUltra => "KISS Ultra",
            FontVariant::Unknown => "Unknown",
        }
    }
}

} // verus!

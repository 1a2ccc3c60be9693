//! Codes understood by the host.
//!
//! The host's logging call takes a severity level and its generic
//! data-retrieval call takes a query selector, both as plain integers.
//! These enumerations name them; [`RmLogLevel::code`] and
//! [`RmGetType::code`] give the integer each name stands for.

use vstd::prelude::*;

verus! {

/// Log severities matching the host's levels.
pub enum RmLogLevel {
    LogError,
    LogWarning,
    LogNotice,
    LogDebug,
}

impl RmLogLevel {
    /// The integer the host's logging call expects for this severity.
    pub fn code(&self) -> (c: i32)
        ensures
            c == match self {
                RmLogLevel::LogError => 1int,
                RmLogLevel::LogWarning => 2int,
                RmLogLevel::LogNotice => 3int,
                RmLogLevel::LogDebug => 4int,
            },
    {
        match self {
            RmLogLevel::LogError => 1,
            RmLogLevel::LogWarning => 2,
            RmLogLevel::LogNotice => 3,
            RmLogLevel::LogDebug => 4,
        }
    }
}

/// Selectors for the host's generic data-retrieval call.
pub enum RmGetType {
    MeasureName,
    Skin,
    SettingsFile,
    SkinName,
    SkinWindowHandle,
}

impl RmGetType {
    /// The integer the host's data-retrieval call expects for this query.
    pub fn code(&self) -> (c: i32)
        ensures
            c == match self {
                RmGetType::MeasureName => 0int,
                RmGetType::Skin => 1int,
                RmGetType::SettingsFile => 2int,
                RmGetType::SkinName => 3int,
                RmGetType::SkinWindowHandle => 4int,
            },
    {
        match self {
            RmGetType::MeasureName => 0,
            RmGetType::Skin => 1,
            RmGetType::SettingsFile => 2,
            RmGetType::SkinName => 3,
            RmGetType::SkinWindowHandle => 4,
        }
    }
}

} // verus!

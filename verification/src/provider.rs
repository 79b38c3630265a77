//! The provider that asks the operating system for context.
use vstd::prelude::*;

use crate::error::{Result, SystexError};
use crate::permissions::PermissionStatus;
use crate::platform::{unsupported, unsupported_error, Platform};

verus! {

/// Captures context from the operating system's accessibility interface.
#[derive(Debug)]
pub struct SystemProvider;

impl SystemProvider {
    pub fn new() -> (r: Self)
        ensures
            r == SystemProvider,
    {
        SystemProvider
    }

    /// Whether capturing can work: only once accessibility access is granted.
    pub fn is_available(&self, accessibility: PermissionStatus) -> (r: bool)
        ensures
            r == (accessibility == PermissionStatus::Granted),
    {
        accessibility == PermissionStatus::Granted
    }

    /// What a capture answers: no platform's capture is written yet. On macOS it needs
    /// accessibility access first and is denied without it; with it, and on every other
    /// platform, it answers that the capture is not implemented or the platform not supported.
    pub fn check_ready(&self, platform: &Platform, accessibility: PermissionStatus) -> (r: Result<
        (),
    >)
        ensures
            *platform is MacOs && accessibility != PermissionStatus::Granted ==> (r matches Err(
                e,
            ) && e is PermissionDenied),
            !(*platform is MacOs && accessibility != PermissionStatus::Granted) ==> (r matches Err(
                e,
            ) && e == unsupported_error(*platform)),
    {
        if platform.has_engine() && !self.is_available(accessibility) {
            return Err(SystexError::PermissionDenied);
        }
        Err(unsupported(platform))
    }

    /// Whether the focused element may be read for its word rectangles or for a dump of what it
    /// exposes: on macOS once accessibility access is granted, and denied without it; elsewhere
    /// there is no engine to read it with.
    pub fn check_access(&self, platform: &Platform, accessibility: PermissionStatus) -> (r: Result<
        (),
    >)
        ensures
            *platform is MacOs && accessibility == PermissionStatus::Granted ==> r is Ok,
            *platform is MacOs && accessibility != PermissionStatus::Granted ==> (r matches Err(
                e,
            ) && e is PermissionDenied),
            !(*platform is MacOs) ==> (r matches Err(e) && e == unsupported_error(*platform)),
    {
        if !platform.has_engine() {
            return Err(unsupported(platform));
        }
        if !self.is_available(accessibility) {
            return Err(SystexError::PermissionDenied);
        }
        Ok(())
    }
}

impl Default for SystemProvider {
    fn default() -> (r: Self)
        ensures
            r == SystemProvider,
    {
        Self::new()
    }
}

} // verus!

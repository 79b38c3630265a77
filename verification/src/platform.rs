//! The operating system the library runs on, and what it answers where no engine exists for it.
use vstd::prelude::*;

use crate::error::SystexError;
use crate::text::same_text;

verus! {

/// The operating system, as `std::env::consts::OS` names it.
#[derive(Debug, Clone, Copy)]
pub enum Platform {
    MacOs,
    Windows,
    Linux,
    Other(&'static str),
}

/// The platform that the name `os` stands for.
pub open spec fn platform_named(os: &'static str) -> Platform {
    if os@ == "macos"@ {
        Platform::MacOs
    } else if os@ == "windows"@ {
        Platform::Windows
    } else if os@ == "linux"@ {
        Platform::Linux
    } else {
        Platform::Other(os)
    }
}

/// The name of `platform`.
pub open spec fn platform_os(platform: Platform) -> Seq<char> {
    match platform {
        Platform::MacOs => "macos"@,
        Platform::Windows => "windows"@,
        Platform::Linux => "linux"@,
        Platform::Other(os) => os@,
    }
}

/// The error that a capture answers on `platform`, where no capture is written yet: the macOS,
/// Windows and Linux captures are not implemented, and any other platform is not supported.
pub open spec fn unsupported_error(platform: Platform) -> SystexError {
    match platform {
        Platform::MacOs => SystexError::Unimplemented("macos accessibility capture"),
        Platform::Windows => SystexError::Unimplemented("windows ui automation capture"),
        Platform::Linux => SystexError::Unimplemented("linux at-spi capture"),
        Platform::Other(os) => SystexError::UnsupportedPlatform(os),
    }
}

impl Platform {
    /// The platform that the name `os` stands for (`std::env::consts::OS` names the running one).
    pub fn from_os(os: &'static str) -> (r: Platform)
        ensures
            r == platform_named(os),
    {
        if same_text(os, "macos") {
            Platform::MacOs
        } else if same_text(os, "windows") {
            Platform::Windows
        } else if same_text(os, "linux") {
            Platform::Linux
        } else {
            Platform::Other(os)
        }
    }

    /// The name of this platform.
    pub fn os(&self) -> (r: &'static str)
        ensures
            r@ == platform_os(*self),
    {
        match self {
            Platform::MacOs => "macos",
            Platform::Windows => "windows",
            Platform::Linux => "linux",
            Platform::Other(os) => os,
        }
    }

    /// Whether this platform has an accessibility engine that reads the focused element: only
    /// macOS does.
    pub fn has_engine(&self) -> (r: bool)
        ensures
            r == (*self is MacOs),
    {
        match self {
            Platform::MacOs => true,
            _ => false,
        }
    }
}

/// What a capture answers on `platform`: the macOS accessibility capture, Windows UI Automation
/// and Linux AT-SPI are not written yet, and any other platform is not supported.
pub fn unsupported(platform: &Platform) -> (r: SystexError)
    ensures
        r == unsupported_error(*platform),
{
    match platform {
        Platform::MacOs => SystexError::Unimplemented("macos accessibility capture"),
        Platform::Windows => SystexError::Unimplemented("windows ui automation capture"),
        Platform::Linux => SystexError::Unimplemented("linux at-spi capture"),
        Platform::Other(os) => SystexError::UnsupportedPlatform(os),
    }
}

/// Naming a platform and reading its name back gives the name: `os` always reads back as the
/// characters it was made from.
pub proof fn lemma_platform_name_round_trip(os: &'static str)
    ensures
        platform_os(platform_named(os)) == os@,
{
}

/// Naming a known platform by its own name gives that platform back.
pub proof fn lemma_known_platform_round_trip(platform: Platform, os: &'static str)
    requires
        !(platform is Other),
        os@ == platform_os(platform),
    ensures
        platform_named(os) == platform,
{
    reveal_strlit("macos");
    reveal_strlit("windows");
    reveal_strlit("linux");
    assert("macos"@ != "windows"@) by {
        assert("macos"@.len() != "windows"@.len());
    }
    assert("macos"@ != "linux"@) by {
        assert("macos"@[0] != "linux"@[0]);
    }
    assert("windows"@ != "linux"@) by {
        assert("windows"@.len() != "linux"@.len());
    }
}

} // verus!

//! Captures the context surrounding the caret: the focused application and window, the text
//! around the caret, and the permissions that reading them takes. This crate holds the logic;
//! the calls into the operating system live with the program around it.
pub mod caret;
pub mod element;
pub mod engine;
pub mod error;
pub mod menu;
pub mod model;
pub mod permissions;
pub mod platform;
pub mod provider;
pub mod related;
pub mod text;
pub mod view;
pub mod window_text;
pub mod words;

pub use error::{Result, SystexError};
pub use model::{AppInfo, CaptureOptions, RelatedContent};
pub use provider::SystemProvider;

use vstd::prelude::*;
use vstd::string::*;

use crate::text::same_text;

verus! {

/// A provider that stands in for the system one, for demos and tests of the overlay.
#[derive(Debug)]
pub struct MockProvider;

impl MockProvider {
    pub fn new() -> (r: Self)
        ensures
            r == MockProvider,
    {
        MockProvider
    }
}

/// The providers a caller can pick by name.
#[derive(Debug)]
pub enum ContextProvider {
    System(SystemProvider),
    Mock(MockProvider),
}

/// The message for a provider name that names no provider.
pub open spec fn unknown_provider_message(name: Seq<char>) -> Seq<char> {
    "unknown provider `"@ + name + "`"@
}

/// The provider named `name`: `system` or `mock`.
pub fn provider_by_name(name: &str) -> (r: Result<ContextProvider>)
    ensures
        name@ == "system"@ ==> (r matches Ok(p) && p is System),
        name@ == "mock"@ ==> (r matches Ok(p) && p is Mock),
        name@ != "system"@ && name@ != "mock"@ ==> (r matches Err(SystexError::Capture(message))
            && message@ == unknown_provider_message(name@)),
{
    proof {
        reveal_strlit("system");
        reveal_strlit("mock");
        assert("system"@.len() != "mock"@.len());
    }
    if same_text(name, "system") {
        return Ok(ContextProvider::System(SystemProvider::new()));
    }
    if same_text(name, "mock") {
        return Ok(ContextProvider::Mock(MockProvider::new()));
    }
    let mut message = String::from_str("unknown provider `");
    message.append(name);
    message.append("`");
    Err(SystexError::Capture(message))
}

} // verus!

//! Which program opens a URL on which platform.

use vstd::prelude::*;
use vstd::string::StringExecFns;

verus! {

/// The platform families that differ in how a URL is opened.
#[derive(Debug, Clone, Copy, PartialEq, Eq)]
pub enum Platform {
    /// macOS, where `open` hands a URL to the default browser.
    MacOs,
    /// Linux, where the browser is a program of the user's choice.
    Linux,
    /// Any other platform: opening a URL is not supported there.
    Other,
}

/// Why no program can open a URL.
#[derive(Debug, Clone, Copy, PartialEq, Eq)]
pub enum LaunchError {
    /// The platform is neither macOS nor Linux.
    Unsupported,
}

impl LaunchError {
    /// The text of the error.
    pub open spec fn spec_message(&self) -> Seq<char> {
        "so far this only works on Mac or Linux"@
    }

    /// The text to show for the error.
    pub fn message(&self) -> (out: String)
        ensures
            out@ == self.spec_message(),
    {
        String::from_str("so far this only works on Mac or Linux")
    }
}

/// The platform that the operating system called `os` belongs to.
pub open spec fn platform_of(os: Seq<char>) -> Platform {
    if os == "macos"@ {
        Platform::MacOs
    } else if os == "linux"@ {
        Platform::Linux
    } else {
        Platform::Other
    }
}

/// The program that opens a URL on `platform`, where `browser` is the browser
/// that the user has configured, if any.
pub open spec fn program_for(platform: Platform, browser: Option<Seq<char>>) -> Result<
    Seq<char>,
    LaunchError,
> {
    match platform {
        Platform::MacOs => Ok("open"@),
        Platform::Linux => match browser {
            Some(name) => Ok(name),
            None => Ok("firefox"@),
        },
        Platform::Other => Err(LaunchError::Unsupported),
    }
}

/// The name that a configured browser writes.
pub open spec fn configured(browser: Option<String>) -> Option<Seq<char>> {
    match browser {
        Some(name) => Some(name@),
        None => None,
    }
}

impl Platform {
    /// The platform that the operating system called `os` belongs to.
    pub fn from_os(os: &str) -> (out: Platform)
        ensures
            out == platform_of(os@),
    {
        let name = String::from_str(os);
        if name == String::from_str("macos") {
            Platform::MacOs
        } else if name == String::from_str("linux") {
            Platform::Linux
        } else {
            Platform::Other
        }
    }

    /// The program to run with the URL as its argument. On macOS it is
    /// `open`; on Linux the configured browser, or `firefox` when none is
    /// configured; on other platforms there is none.
    pub fn program(&self, browser: Option<String>) -> (out: Result<String, LaunchError>)
        ensures
            match out {
                Ok(name) => program_for(*self, configured(browser)) == Ok::<
                    Seq<char>,
                    LaunchError,
                >(name@),
                Err(e) => program_for(*self, configured(browser)) == Err::<
                    Seq<char>,
                    LaunchError,
                >(e),
            },
    {
        match self {
            Platform::MacOs => Ok(String::from_str("open")),
            Platform::Linux => match browser {
                Some(name) => Ok(name),
                None => Ok(String::from_str("firefox")),
            },
            Platform::Other => Err(LaunchError::Unsupported),
        }
    }
}

} // verus!

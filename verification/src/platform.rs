//! The operating systems that behave differently.

use vstd::prelude::*;

verus! {

#[derive(Debug, Clone, Copy, PartialEq, Eq, Structural)]
pub enum Platform {
    Linux,
    MacOs,
    Windows,
    Other,
}

impl Platform {
    /// The name of the platform's engine.
    pub open spec fn engine_text(self) -> Seq<char> {
        match self {
            Platform::Linux => "libaio"@,
            Platform::MacOs => "posixaio"@,
            Platform::Windows => "windowsaio"@,
            Platform::Other => "psync"@,
        }
    }

    /// Platform-native asynchronous ioengine (must honor `iodepth`).
    pub fn engine(self) -> (r: &'static str)
        ensures
            r@ == self.engine_text(),
    {
        match self {
            Platform::Linux => "libaio",
            Platform::MacOs => "posixaio",
            Platform::Windows => "windowsaio",
            Platform::Other => "psync",
        }
    }
}

} // verus!

use vstd::prelude::*;

verus! {

/// Why an endpoint cannot be used.
#[derive(Debug, Clone, Copy, PartialEq, Eq, Structural)]
#[non_exhaustive]
pub enum EndpointError {
    InvalidServiceName,
    InvalidVsockTarget,
    UnsupportedOnPlatform,
    NoRuntimeDirectory,
    WslNotRunning,
}

impl EndpointError {
    /// The error in words.
    pub open spec fn words(self) -> Seq<char> {
        match self {
            EndpointError::InvalidServiceName => "invalid service name"@,
            EndpointError::InvalidVsockTarget => "invalid vsock target"@,
            EndpointError::UnsupportedOnPlatform => "transport not supported on this platform"@,
            EndpointError::NoRuntimeDirectory => "no usable runtime directory"@,
            EndpointError::WslNotRunning => "no running WSL VM"@,
        }
    }

    /// The error in words.
    pub fn as_str(self) -> (text: &'static str)
        ensures
            text@ == self.words(),
    {
        match self {
            EndpointError::InvalidServiceName => "invalid service name",
            EndpointError::InvalidVsockTarget => "invalid vsock target",
            EndpointError::UnsupportedOnPlatform => "transport not supported on this platform",
            EndpointError::NoRuntimeDirectory => "no usable runtime directory",
            EndpointError::WslNotRunning => "no running WSL VM",
        }
    }
}

} // verus!

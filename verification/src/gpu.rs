//! Which native GPU API a future rendering backend would target.

use vstd::prelude::*;

verus! {

/// Operating systems the simulator builds for, as far as the choice of a
/// GPU API is concerned.
#[derive(Clone, Copy, Debug, PartialEq, Eq, Structural)]
pub enum TargetOs {
    /// macOS.
    MacOs,
    /// Windows.
    Windows,
    /// Linux and every other system.
    Other,
}

/// Describes which native GPU API a future backend would target.
pub struct GpuBackendStub;

impl GpuBackendStub {
    /// Planned GPU backend for a platform: Metal on macOS, DirectX 12 on
    /// Windows, Vulkan elsewhere. Not implemented.
    pub fn describe(os: TargetOs) -> (d: &'static str)
        ensures
            d@ == match os {
                TargetOs::MacOs => "metal (planned, not implemented)"@,
                TargetOs::Windows => "dx12 (planned, not implemented)"@,
                TargetOs::Other => "vulkan (planned, not implemented)"@,
            },
    {
        match os {
            TargetOs::MacOs => "metal (planned, not implemented)",
            TargetOs::Windows => "dx12 (planned, not implemented)",
            TargetOs::Other => "vulkan (planned, not implemented)",
        }
    }
}

} // verus!

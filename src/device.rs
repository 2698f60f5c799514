use vstd::prelude::*;

verus! {

/// Why an accelerator computation failed.
#[derive(Clone, Copy, Debug, PartialEq, Eq, Structural)]
pub enum AcceleratorError {
    /// No compatible device, or the runtime could not be started.
    InitFailed,
    /// A device buffer could not be allocated, or a copy failed.
    TransferFailed,
    /// The kernel artifact is missing or malformed, or lacks its entry point.
    KernelLoadFailed,
    /// The kernel launch was refused or its execution failed.
    LaunchFailed,
}

/// The steps of one accelerator comparison, in the order they run.
#[derive(Clone, Copy, Debug, PartialEq, Eq, Structural)]
pub enum DeviceStage {
    /// Start the runtime and take a context.
    Init,
    /// Copy both vectors into device buffers.
    CopyIn,
    /// Allocate the three accumulators, each holding zero.
    Accumulators,
    /// Load the reduction kernel by name from its artifact.
    LoadKernel,
    /// Run the kernel to completion.
    Launch,
    /// Copy the three accumulators back to the host.
    CopyOut,
}

impl DeviceStage {
    /// The error that a failure at this stage is reported as.
    pub open spec fn failure_spec(self) -> AcceleratorError {
        match self {
            DeviceStage::Init => AcceleratorError::InitFailed,
            DeviceStage::CopyIn => AcceleratorError::TransferFailed,
            DeviceStage::Accumulators => AcceleratorError::TransferFailed,
            DeviceStage::LoadKernel => AcceleratorError::KernelLoadFailed,
            DeviceStage::Launch => AcceleratorError::LaunchFailed,
            DeviceStage::CopyOut => AcceleratorError::TransferFailed,
        }
    }

    pub fn failure(&self) -> (r: AcceleratorError)
        ensures
            r == self.failure_spec(),
    {
        match self {
            DeviceStage::Init => AcceleratorError::InitFailed,
            DeviceStage::CopyIn => AcceleratorError::TransferFailed,
            DeviceStage::Accumulators => AcceleratorError::TransferFailed,
            DeviceStage::LoadKernel => AcceleratorError::KernelLoadFailed,
            DeviceStage::Launch => AcceleratorError::LaunchFailed,
            DeviceStage::CopyOut => AcceleratorError::TransferFailed,
        }
    }
}

} // verus!

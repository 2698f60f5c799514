use rusty::{launch_geometry, AcceleratorError, DeviceStage, Extent, BLOCK_WIDTH};

fn grid_width(len: usize) -> u32 {
    launch_geometry(len).unwrap().grid.x
}

#[test]
fn grid_covers_sub_exact_and_multi_block_lengths() {
    assert_eq!(grid_width(1), 1);
    assert_eq!(grid_width(4), 1);
    assert_eq!(grid_width(255), 1);
    assert_eq!(grid_width(256), 1);
    assert_eq!(grid_width(257), 2);
    assert_eq!(grid_width(10000), 40);
}

#[test]
fn geometry_is_one_dimensional_with_fixed_blocks() {
    let g = launch_geometry(300).unwrap();
    assert_eq!(g.block, Extent { x: 256, y: 1, z: 1 });
    assert_eq!(g.grid, Extent { x: 2, y: 1, z: 1 });
    assert_eq!(g.len, 300);
    assert_eq!(BLOCK_WIDTH, 256);
}

#[test]
fn largest_kernel_length() {
    let g = launch_geometry(0x7fff_ffff).unwrap();
    assert_eq!(g.len, i32::MAX);
    assert_eq!(g.grid.x, 8_388_608);
    assert_eq!(launch_geometry(0x8000_0000).unwrap_err(), AcceleratorError::LaunchFailed);
}

#[test]
fn empty_vector_cannot_launch() {
    assert_eq!(launch_geometry(0).unwrap_err(), AcceleratorError::LaunchFailed);
}

#[test]
fn each_stage_reports_its_error() {
    assert_eq!(DeviceStage::Init.failure(), AcceleratorError::InitFailed);
    assert_eq!(DeviceStage::CopyIn.failure(), AcceleratorError::TransferFailed);
    assert_eq!(DeviceStage::Accumulators.failure(), AcceleratorError::TransferFailed);
    assert_eq!(DeviceStage::LoadKernel.failure(), AcceleratorError::KernelLoadFailed);
    assert_eq!(DeviceStage::Launch.failure(), AcceleratorError::LaunchFailed);
    assert_eq!(DeviceStage::CopyOut.failure(), AcceleratorError::TransferFailed);
}

use crate::device::AcceleratorError;
use vstd::prelude::*;

verus! {

/// Threads per block of the reduction kernel.
pub const BLOCK_WIDTH: u32 = 256;

/// The largest vector length that the kernel's signed 32-bit length
/// parameter can carry.
pub const MAX_KERNEL_LEN: usize = 0x7fff_ffff;

/// A three-dimensional launch extent.
#[derive(Clone, Copy, Debug, PartialEq, Eq, Structural)]
pub struct Extent {
    pub x: u32,
    pub y: u32,
    pub z: u32,
}

/// How the reduction kernel is launched over a vector: one-dimensional
/// blocks and grid, and the length handed to the kernel.
#[derive(Clone, Copy, Debug, PartialEq, Eq, Structural)]
pub struct LaunchGeometry {
    pub block: Extent,
    pub grid: Extent,
    pub len: i32,
}

/// The element that thread `thread` of block `block` handles.
pub open spec fn element_of(block: int, thread: int) -> int {
    block * BLOCK_WIDTH + thread
}

/// Every element below `len` is handled by exactly one thread of `g`, and
/// every thread of `g` stands on an element below `len` or after it.
pub open spec fn covers(g: LaunchGeometry, len: int) -> bool {
    &&& forall|e: int|
        0 <= e < len ==> 0 <= #[trigger] (e / BLOCK_WIDTH as int) < g.grid.x && element_of(
            e / BLOCK_WIDTH as int,
            e % BLOCK_WIDTH as int,
        ) == e
    &&& forall|b1: int, t1: int, b2: int, t2: int|
        0 <= t1 < g.block.x && 0 <= t2 < g.block.x && #[trigger] element_of(b1, t1)
            == #[trigger] element_of(b2, t2) ==> b1 == b2 && t1 == t2
}

/// The launch geometry for vectors of `len` elements: blocks of
/// `BLOCK_WIDTH` threads and as many blocks as it takes to reach every
/// element, no more. An empty vector gives no grid, and a length beyond the
/// kernel's parameter cannot be passed: both are refused as launch failures.
pub fn launch_geometry(len: usize) -> (r: Result<LaunchGeometry, AcceleratorError>)
    ensures
        r is Ok <==> 0 < len <= MAX_KERNEL_LEN,
        r matches Err(e) ==> e == AcceleratorError::LaunchFailed,
        r matches Ok(g) ==> {
            &&& g.block == Extent { x: BLOCK_WIDTH, y: 1, z: 1 }
            &&& g.grid.y == 1 && g.grid.z == 1
            &&& (g.grid.x - 1) * BLOCK_WIDTH < len <= g.grid.x * BLOCK_WIDTH
            &&& g.len == len
            &&& covers(g, len as int)
        },
{
    if len == 0 || len > MAX_KERNEL_LEN {
        return Err(AcceleratorError::LaunchFailed);
    }
    let blocks = (len - 1) / (BLOCK_WIDTH as usize) + 1;
    let g = LaunchGeometry {
        block: Extent { x: BLOCK_WIDTH, y: 1, z: 1 },
        grid: Extent { x: blocks as u32, y: 1, z: 1 },
        len: len as i32,
    };
    proof {
        let w = BLOCK_WIDTH as int;
        assert forall|e: int| 0 <= e < len implies 0 <= #[trigger] (e / w) < g.grid.x && element_of(
            e / w,
            e % w,
        ) == e by {
            assert(e / w <= (len - 1) / w) by (nonlinear_arith)
                requires
                    0 <= e < len,
                    w == 256,
            ;
        }
        assert forall|b1: int, t1: int, b2: int, t2: int|
            0 <= t1 < g.block.x && 0 <= t2 < g.block.x && #[trigger] element_of(b1, t1)
                == #[trigger] element_of(b2, t2) implies b1 == b2 && t1 == t2 by {
            assert(b1 == b2) by (nonlinear_arith)
                requires
                    0 <= t1 < 256,
                    0 <= t2 < 256,
                    b1 * 256 + t1 == b2 * 256 + t2,
            ;
        }
        assert((blocks - 1) * w < len <= blocks * w) by (nonlinear_arith)
            requires
                blocks == (len - 1) / w + 1,
                w == 256,
                len > 0,
        ;
    }
    Ok(g)
}

} // verus!

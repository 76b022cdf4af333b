use vstd::prelude::*;

verus! {

/// Threads per block; every dispatch uses this fixed width.
pub const BLOCK_SIZE: u32 = 256;

/// Blocks needed so that `BLOCK_SIZE`-wide blocks cover `n` elements.
pub open spec fn grid_for(n: nat) -> nat {
    ((n + BLOCK_SIZE - 1) / (BLOCK_SIZE as int)) as nat
}

/// The shape of one kernel dispatch along its single dimension.
#[derive(Clone, Copy, Debug, PartialEq, Eq, Structural)]
pub struct LaunchConfig {
    pub grid: u32,
    pub block: u32,
}

/// Grid and block size for `n` elements, or `None` when the grid would not
/// fit the driver's 32-bit grid dimension.
pub fn launch_config(n: usize) -> (r: Option<LaunchConfig>)
    ensures
        grid_for(n as nat) <= u32::MAX as nat <==> r is Some,
        r matches Some(c) ==> c.grid as nat == grid_for(n as nat) && c.block == BLOCK_SIZE,
{
    let blocks: usize = n / 256 + if n % 256 == 0 { 0 } else { 1 };
    assert(blocks as nat == grid_for(n as nat));
    if blocks <= u32::MAX as usize {
        Some(LaunchConfig { grid: blocks as u32, block: BLOCK_SIZE })
    } else {
        None
    }
}

/// Every element index below `n` falls in some block of the grid, and the
/// grid holds no block that is wholly past the end.
pub proof fn lemma_grid_covers(n: nat)
    requires
        n >= 1,
    ensures
        grid_for(n) * (BLOCK_SIZE as nat) >= n,
        (grid_for(n) - 1) * (BLOCK_SIZE as nat) < n,
        forall|i: nat| i < n ==> #[trigger] (i / (BLOCK_SIZE as nat)) < grid_for(n),
{
    assert(grid_for(n) * 256 >= n && (grid_for(n) - 1) * 256 < n) by (nonlinear_arith)
        requires n >= 1, grid_for(n) == (n + 255) / 256;
    assert forall|i: nat| i < n implies #[trigger] (i / (BLOCK_SIZE as nat)) < grid_for(n) by {
        assert(i / 256 < (n + 255) / 256) by (nonlinear_arith)
            requires i < n;
    }
}

} // verus!

//! The domain invariants a parsed record must satisfy.

use crate::analysis::BOARD_SIZE;
use crate::analysis::DEPTH_LIMIT;
use crate::analysis::NODE_BOUND;
use crate::analysis::OthelloAnalysis;
use crate::analysis::STRENGTH_LIMIT;
use vstd::prelude::*;

verus! {

/// Which invariant a record broke, in the order they are checked.
#[derive(Debug, PartialEq, Eq, Clone, Copy)]
pub enum ValidationError {
    /// The board does not have exactly 36 empty cells.
    EmptyCellCount,
    /// The search depth exceeds the depth limit.
    DepthLimit,
    /// The search strength exceeds the strength limit.
    StrengthLimit,
    /// A score bound exceeds the board size in magnitude.
    BoundMagnitude,
    /// The two score bounds differ in parity.
    BoundParity,
    /// The lower bound exceeds the upper bound.
    BoundOrder,
    /// The node count is out of its magnitude budget.
    NodeMagnitude,
    /// The bound interval straddles zero without being a single point.
    BoundWindow,
}

/// Number of set bits among the low `n` bits of `x`.
pub open spec fn count_bits(x: u64, n: int) -> int
    decreases n,
{
    if n <= 0 {
        0
    } else {
        count_bits(x, n - 1) + (if (x >> ((n - 1) as u64)) & 1 == 1 {
            1int
        } else {
            0int
        })
    }
}

/// Counts the set bits of a 64-bit word.
fn popcount(x: u64) -> (c: u32)
    ensures
        c == count_bits(x, 64),
        c <= 64,
{
    let mut c: u32 = 0;
    let mut i: u64 = 0;
    while i < 64
        invariant
            0 <= i <= 64,
            c == count_bits(x, i as int),
            c <= i,
        decreases 64 - i,
    {
        if (x >> i) & 1 == 1 {
            c = c + 1;
        }
        i = i + 1;
    }
    c
}

/// The low `n` bits of an all-zero word hold no set bit.
proof fn lemma_count_bits_zero(n: int)
    requires
        n >= 0,
    ensures
        count_bits(0u64, n) == 0,
    decreases n,
{
    if n > 0 {
        lemma_count_bits_zero(n - 1);
        let k = (n - 1) as u64;
        assert((0u64 >> k) & 1 == 0) by (bit_vector);
    }
}

/// Law: a record with a fully empty board has 64 empty cells, not the 36
/// the archive demands, so it never validates.
pub proof fn lemma_empty_board_rejected(rec: OthelloAnalysis)
    requires
        rec.board[0] == 0,
        rec.board[1] == 0,
    ensures
        !rec.spec_valid(),
{
    assert(0u64 | 0u64 == 0u64) by (bit_vector);
    lemma_count_bits_zero(64);
}

/// Law: two score bounds of different parity never validate.
pub proof fn lemma_parity_mismatch_rejected(rec: OthelloAnalysis)
    requires
        (rec.bounds[0] as int) % 2 != (rec.bounds[1] as int) % 2,
    ensures
        !rec.spec_valid(),
{
}

/// Law: a bound interval that straddles zero with both endpoints nonzero is
/// never valid, however the other fields look.
pub proof fn lemma_straddling_bounds_rejected(rec: OthelloAnalysis)
    requires
        rec.bounds[0] < 0 < rec.bounds[1],
    ensures
        !rec.spec_valid(),
{
}

impl OthelloAnalysis {
    /// Invariant: exactly 36 cells of the 64 are empty.
    pub open spec fn inv_empty_cells(self) -> bool {
        64 - count_bits(self.board[0] | self.board[1], 64) == DEPTH_LIMIT
    }

    /// Invariant: the search depth never exceeds the depth limit.
    pub open spec fn inv_depth(self) -> bool {
        self.settings[0] <= DEPTH_LIMIT
    }

    /// Invariant: the search strength never exceeds the strength limit.
    pub open spec fn inv_strength(self) -> bool {
        self.settings[1] <= STRENGTH_LIMIT
    }

    /// Invariant: both score bounds fit on the board in magnitude.
    pub open spec fn inv_bound_magnitude(self) -> bool {
        &&& -BOARD_SIZE <= self.bounds[0] <= BOARD_SIZE
        &&& -BOARD_SIZE <= self.bounds[1] <= BOARD_SIZE
    }

    /// Invariant: the two score bounds share parity.
    pub open spec fn inv_bound_parity(self) -> bool {
        (self.bounds[0] as int) % 2 == (self.bounds[1] as int) % 2
    }

    /// Invariant: the lower bound never exceeds the upper bound.
    pub open spec fn inv_bound_order(self) -> bool {
        self.bounds[0] <= self.bounds[1]
    }

    /// Invariant: the node count stays under 2^47 in magnitude.
    pub open spec fn inv_node_magnitude(self) -> bool {
        -NODE_BOUND < self.nodes < NODE_BOUND
    }

    /// Invariant: the bound interval does not straddle zero unless it is a
    /// single point.
    pub open spec fn inv_bound_window(self) -> bool {
        ||| self.bounds[0] == self.bounds[1]
        ||| self.bounds[1] < 0
        ||| self.bounds[0] > 0
    }

    /// All eight domain invariants together.
    pub open spec fn spec_valid(self) -> bool {
        &&& self.inv_empty_cells()
        &&& self.inv_depth()
        &&& self.inv_strength()
        &&& self.inv_bound_magnitude()
        &&& self.inv_bound_parity()
        &&& self.inv_bound_order()
        &&& self.inv_node_magnitude()
        &&& self.inv_bound_window()
    }

    /// The outcome validation must report: the first broken invariant in
    /// check order, or success.
    pub open spec fn spec_validate(self) -> Result<(), ValidationError> {
        if !self.inv_empty_cells() {
            Err(ValidationError::EmptyCellCount)
        } else if !self.inv_depth() {
            Err(ValidationError::DepthLimit)
        } else if !self.inv_strength() {
            Err(ValidationError::StrengthLimit)
        } else if !self.inv_bound_magnitude() {
            Err(ValidationError::BoundMagnitude)
        } else if !self.inv_bound_parity() {
            Err(ValidationError::BoundParity)
        } else if !self.inv_bound_order() {
            Err(ValidationError::BoundOrder)
        } else if !self.inv_node_magnitude() {
            Err(ValidationError::NodeMagnitude)
        } else if !self.inv_bound_window() {
            Err(ValidationError::BoundWindow)
        } else {
            Ok(())
        }
    }

    /// Checks the domain invariants, reporting the first one broken.
    pub fn validate(&self) -> (r: Result<(), ValidationError>)
        ensures
            r == self.spec_validate(),
            r is Ok <==> self.spec_valid(),
    {
        let occupied = popcount(self.board[0] | self.board[1]);
        if occupied != 64 - DEPTH_LIMIT as u32 {
            return Err(ValidationError::EmptyCellCount);
        }
        if self.settings[0] > DEPTH_LIMIT {
            return Err(ValidationError::DepthLimit);
        }
        if self.settings[1] > STRENGTH_LIMIT {
            return Err(ValidationError::StrengthLimit);
        }
        if self.bounds[0] < -BOARD_SIZE || self.bounds[0] > BOARD_SIZE || self.bounds[1]
            < -BOARD_SIZE || self.bounds[1] > BOARD_SIZE {
            return Err(ValidationError::BoundMagnitude);
        }
        let parity0: u8 = ((self.bounds[0] as i16 + 64) as u8) % 2;
        let parity1: u8 = ((self.bounds[1] as i16 + 64) as u8) % 2;
        if parity0 != parity1 {
            return Err(ValidationError::BoundParity);
        }
        if self.bounds[0] > self.bounds[1] {
            return Err(ValidationError::BoundOrder);
        }
        if self.nodes <= -NODE_BOUND || self.nodes >= NODE_BOUND {
            return Err(ValidationError::NodeMagnitude);
        }
        if !(self.bounds[0] == self.bounds[1] || self.bounds[1] < 0 || self.bounds[0] > 0) {
            return Err(ValidationError::BoundWindow);
        }
        Ok(())
    }
}

} // verus!

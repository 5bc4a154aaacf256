//! Binding powers of the infix operators: how eagerly an operator takes the
//! operand on its left and the one on its right.

use vstd::prelude::*;

verus! {

/// Addition binds loosely; its right side binds one tighter than its left, so
/// that a chain of additions groups from the left.
pub const ADDITIVE: (u8, u8) = (1, 2);

/// Multiplication and division bind tighter than addition, and group from the
/// left as well.
pub const MULTIPLICATIVE: (u8, u8) = (3, 4);

/// Multiplicative operators bind tighter than additive ones, and each
/// operator binds its right side one tighter than its left.
pub proof fn lemma_binding_powers()
    ensures
        MULTIPLICATIVE.0 > ADDITIVE.1,
        ADDITIVE.1 == ADDITIVE.0 + 1,
        MULTIPLICATIVE.1 == MULTIPLICATIVE.0 + 1,
{
}

} // verus!

//! Steady-state power-system analysis engine: network data model,
//! susceptance and admittance assembly, DC load flow, and the
//! Newton-Raphson iteration, all over fixed-point per-unit
//! arithmetic.
//!
//! Every electrical quantity is an `i64` count of nano per-unit
//! (`fixed::UNIT` counts equal 1.0 pu).  The two steps that need
//! floating point — the sparse LU solve of a linear system and the
//! evaluation of sine and cosine — are performed by the caller,
//! which hands the results back as fixed-point values; everything
//! around them is verified.
//!
//! - `fixed`: scaled multiplication and division with truncation.
//! - `model`: the entities, the `Network`, and its well-formedness.
//! - `index`: bus-to-matrix index tables in insertion order.
//! - `triplet`: the append-with-duplicates builder and compaction.
//! - `dc`: the reduced susceptance system B', injections, and flows.
//! - `ybus`: the complex nodal admittance matrix G + jB.
//! - `nr`: scheduled power, mismatch, Jacobian, update walk, and
//!   the solve state machine.
//! - `text`: field cleanup for exchange-format records.

use vstd::prelude::*;

pub mod dc;
pub mod fixed;
pub mod index;
pub mod model;
pub mod nr;
pub mod text;
pub mod triplet;
pub mod ybus;

verus! {

/// Convergence tolerance for the Newton-Raphson correction norm,
/// in nano per-unit: 1000 counts are 1e-6 pu.
pub const NR_TOLERANCE: i64 = 1000;

} // verus!

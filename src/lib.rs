//! A two-asset constant-product exchange pool: exact 256-bit pricing
//! arithmetic, the invariant's decimal encoding, and the pool's state machine.

pub mod big;
pub mod decimal;
pub mod pool;

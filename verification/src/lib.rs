//! Verified core of a Monte Carlo path tracer.
//!
//! A path tracer is mostly floating-point arithmetic, which stays in the
//! unverified renderer around this crate.  What this library verifies is the
//! exact skeleton underneath that arithmetic:
//!
//! * `grid` — the pixel bookkeeping of the render scheduler: row-major pixel
//!   indexing, the partition of the image into scanline chunks handed to
//!   parallel workers, and the reassembly of finished chunks into a single
//!   scanline-major image buffer.
//! * `hit` — the decision logic of ray/sphere intersection and of the
//!   closest-hit scan over a scene, stated over an order-preserving integer
//!   encoding of the ray parameter axis.
//! * `trace` — the control decisions of the recursive light-transport
//!   integrator: when the bounce budget ends a path, and what each surface
//!   interaction contributes.

pub mod grid;
pub mod hit;
pub mod trace;

//! CSIDH: a commutative group action on supersingular Montgomery curves over a prime field,
//! with x-only point arithmetic, Velu-style isogenies and a walk that hides the private
//! exponent vector behind dummy steps.
//!
//! Two parties apply their private exponent vectors to a common starting curve and exchange
//! the coefficients of the curves they reach; each then applies its own vector to the curve
//! of the other. Both arrive at the same curve, whose coefficient is the shared secret.
pub mod congruence;
pub mod csidh_params;
pub mod elliptic_curve;
pub mod field;
pub mod group_action;
pub mod group_law;
pub mod integer;
pub mod isogeny;
pub mod montgomery_curve;
pub mod montgomery_point;
pub mod number_theory;
pub mod private_key;
pub mod public_key;
pub mod shared_secret;
pub mod xonly;

pub use csidh_params::{csidh_512, CsidhParams};
pub use elliptic_curve::{CsidhEllipticCurve, Point};
pub use field::FieldElement;
pub use group_action::{csidh, Walk};
pub use montgomery_curve::{MontgomeryCurve, Verdict};
pub use montgomery_point::{MontgomeryPoint, PointMultiples};
pub use private_key::PrivateKey;
pub use public_key::PublicKey;
pub use shared_secret::SharedSecret;

//! Secure Boot posture and the image-launch policy. The boot manager
//! prefers to let the firmware verify images when it loads them, inheriting
//! the platform's trust chain; it makes its own signature decision only for
//! images it loads itself (the direct-kernel path). This is pure policy over
//! a reported Secure Boot state.
pub mod state;
pub mod policy;

pub use state::SecureBootState;
pub use policy::{LaunchDecision, decide_launch, Verification};

//! An arithmetic circuit that accepts exactly one address, 127.0.0.1.
//!
//! The candidate string is encoded into a fixed number of symbols
//! (`encode`), the circuit declares one witness column per symbol
//! (`layout`), and synthesis binds every symbol to its expected value in a
//! region of the proving system (`region`, `synth`). `orchestrate` decides
//! what the proving system's answers mean for the caller, `attempt` follows
//! one verification attempt from layout to verdict, `laws` states what holds
//! of the whole, and `backend` is the boundary to the proving system.
pub mod attempt;
pub mod backend;
pub mod circuit;
pub mod encode;
pub mod laws;
pub mod layout;
pub mod orchestrate;
pub mod region;
pub mod synth;

pub use circuit::{ConstructionError, IPCheckCircuit};
pub use layout::IPCheckConfig;

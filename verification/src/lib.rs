//! Verified logic of a menu-bar usage meter for the z.ai GLM coding plan.
//!
//! The library decodes the quota API's answer into a usage report, decides what
//! the menu bar shows of it, tracks free flushes of the weekly counter, and says
//! what the polling agent does next. Files, network and the loop itself are left
//! to the program around it.

pub mod agent;
pub mod celebration;
pub mod chart;
pub mod clock;
pub mod double;
pub mod json;
pub mod providers;
pub mod status;
pub mod text;
pub mod tier;
pub mod usage;

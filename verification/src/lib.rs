//! Verified core of a beatmap analysis toolkit: rhythm segmentation of hit
//! objects, aim-volatility bookkeeping, and the validation rules of the
//! project's knowledge-base tool.

pub mod text;
pub mod rhythm_segmentation;
pub mod prototype;
pub mod patterns;
pub mod transitions;
pub mod aim_control;
pub mod bot;
pub mod backend;
pub mod okf;

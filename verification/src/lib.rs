//! Verified core of the RunixOS update stack.

pub mod bootctl;
pub mod chunk;
pub mod deployment;
pub mod digest;
pub mod encoding;
pub mod init;
pub mod protocol;
pub mod rignite_sim;
pub mod rum;
pub mod signing;
pub mod text;

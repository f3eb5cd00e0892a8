//! A discrete-time spiking neural network built on leaky integrate-and-fire
//! neurons with spike-timing-dependent plasticity, plus an event-driven
//! emulator that turns injected spike events into per-step input currents.
//!
//! All quantities are saturating 64-bit fixed-point numbers in millionths
//! (`fixed::SCALE` units stand for 1.0), so every state transition is exact
//! and stated as a mathematical function in the contracts.

pub mod emulator;
pub mod fixed;
pub mod network;
pub mod neuron;

//! Reverse-mode automatic differentiation over matrices.
//!
//! A computation is a graph of vertices held in an arena ([`autograd::Autograd`]).
//! Each vertex holds a value and a gradient, both matrices of 64-bit words
//! ([`matrix::Matrix`]), and records the operation and the vertices it was derived
//! from. The engine decides which operation is applied to what, in which order
//! gradients flow, and where they are added; what a word means, and so all
//! arithmetic, belongs to the kernel the graph is built with
//! ([`kernel::Primitive`]). Every contract is stated over the function that the
//! kernel computes, whatever it is.
//!
//! The modules: [`matrix`] and [`scalar`] for the data, [`kernel`] for the
//! arithmetic interface, [`autograd`] and [`ops`] for the graph and its
//! operations, [`topo`] for the linearization, [`backward`] for the backward
//! pass, [`laws`] for what holds of it, and [`nn`], [`loss`], [`optimizer`] and
//! [`helpers`] for what is built on the engine.

pub mod autograd;
pub mod backward;
pub mod helpers;
pub mod kernel;
pub mod laws;
pub mod loss;
pub mod matrix;
pub mod nn;
pub mod ops;
pub mod optimizer;
pub mod scalar;
pub mod topo;

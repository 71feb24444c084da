//! The kinds of node in a signal graph, and how many inputs each takes.
//!
//! A node's parameters are floating-point numbers and live with the renderer.
//! What is fixed here is the shape: every kind of node has a set number of
//! inputs, and a graph is checked against that number in one place.

use vstd::prelude::*;

verus! {

/// The response of a state-variable filter.
#[derive(Debug, Clone, Copy, PartialEq, Eq, Structural)]
pub enum FilterMode {
    LowPass2,
    HighPass2,
    BandPass2,
    LowPass4,
}

/// A kind of node.
#[derive(Debug, Clone, Copy, PartialEq, Eq, Structural)]
pub enum OpKind {
    // Oscillators and generators
    Oscillator,
    Sawtooth,
    Sine,
    Noise,
    // Filters
    HighPass,
    StateVariableFilter,
    // Distortion
    Saturate,
    Rectify,
    // Envelopes
    Envelope,
    // Utilities
    Multiply,
    Constant,
    Frequency,
    Mix,
    Zero,
    ScaleInt,
    Note,
}

impl OpKind {
    /// The number of inputs that a node of this kind takes.
    pub open spec fn arity(self) -> nat {
        match self {
            OpKind::Oscillator => 1,
            OpKind::Sawtooth => 1,
            OpKind::Sine => 1,
            OpKind::Noise => 0,
            OpKind::HighPass => 1,
            OpKind::StateVariableFilter => 2,
            OpKind::Saturate => 1,
            OpKind::Rectify => 1,
            OpKind::Envelope => 0,
            OpKind::Multiply => 2,
            OpKind::Constant => 0,
            OpKind::Frequency => 1,
            OpKind::Mix => 2,
            OpKind::Zero => 0,
            OpKind::ScaleInt => 1,
            OpKind::Note => 0,
        }
    }

    /// The number of inputs that a node of this kind takes.
    pub fn input_count(self) -> (r: usize)
        ensures
            r == self.arity(),
    {
        match self {
            OpKind::Noise | OpKind::Envelope | OpKind::Constant | OpKind::Zero | OpKind::Note => 0,
            OpKind::StateVariableFilter | OpKind::Multiply | OpKind::Mix => 2,
            _ => 1,
        }
    }

    /// True if a node of this kind can take `count` inputs.
    pub fn accepts(self, count: usize) -> (r: bool)
        ensures
            r == (count == self.arity()),
    {
        count == self.input_count()
    }
}

} // verus!

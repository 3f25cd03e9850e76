//! The stand-in for a transport: it accepts a transmitted and a received
//! buffer and reports whether both hold anything. Nothing is sent.

use vstd::prelude::*;
use crate::conversion::Conversion;

verus! {

/// A transport that sends nothing.
pub struct Simulation {
    conversion: Conversion,
}

impl Simulation {
    /// The transcoder by which the buffers are shown.
    pub closed spec fn conversion(&self) -> Conversion {
        self.conversion
    }

    pub fn new(conversion: &Conversion) -> (simulation: Simulation)
        ensures
            simulation.conversion().mode() == conversion.mode(),
    {
        Simulation { conversion: conversion.clone() }
    }

    /// A whole transaction: succeeds where there is something to transmit
    /// and something was received.
    pub fn simulate_transaction(&self, tx: &Vec<u8>, rx: &Vec<u8>) -> (ok: bool)
        ensures
            ok == (tx@.len() > 0 && rx@.len() > 0),
    {
        if self.simulate_transmit(tx) {
            if self.simulate_receive(rx) {
                return true;
            }
        }
        false
    }

    /// Succeeds where there is something to transmit.
    pub fn simulate_transmit(&self, tx: &Vec<u8>) -> (ok: bool)
        ensures
            ok == (tx@.len() > 0),
    {
        tx.len() != 0
    }

    /// Succeeds where something was received.
    pub fn simulate_receive(&self, rx: &Vec<u8>) -> (ok: bool)
        ensures
            ok == (rx@.len() > 0),
    {
        rx.len() != 0
    }
}

impl Default for Simulation {
    fn default() -> (simulation: Simulation)
        ensures
            simulation.conversion().mode() == Seq::<char>::empty(),
    {
        Simulation { conversion: Conversion::default() }
    }
}

impl Clone for Simulation {
    fn clone(&self) -> (copy: Simulation)
        ensures
            copy.conversion().mode() == self.conversion().mode(),
    {
        Simulation { conversion: self.conversion.clone() }
    }
}

} // verus!

//! Transient simulation of small analog circuits.
//!
//! A circuit is written as a netlist: voltage sources, resistors, capacitors, diodes and
//! voltage-controlled voltage sources between numbered nodes. This crate reads the netlist
//! ([`netlist`]), lowers it to a square system of linear equations over named unknowns,
//! the voltage of each node and the current of each device ([`sim::transient`], [`la`]),
//! keeps the course of a run step by step ([`sim::transient::run`]), and puts the drawing
//! of the results together ([`graph`]).
//!
//! The crate holds no number with a fraction. The value of a component is the numeral that
//! was written for it, and a cell of the system says which quantity stands in it. Whoever
//! solves the system puts the numbers in, step by step.

pub mod graph;
pub mod la;
pub mod netlist;
pub mod sim;
pub mod text;

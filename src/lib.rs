//! Maximum number of integer points on one straight line, with a few small
//! independent utilities beside it.
pub mod arith;
pub mod line;
pub mod colinear;
pub mod prefix;
pub mod tree;
pub mod tax;
pub mod people;

//! Drives a remote Authority over a line-oriented text protocol: local
//! directives are recognised before a line reaches the wire, and each
//! command's streamed response is followed until its completion marker.
use vstd::prelude::*;

pub mod config;
pub mod directive;
pub mod session;

verus! {

} // verus!

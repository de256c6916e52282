//! Verified core of the reBot Arm B601 control library.
use vstd::prelude::*;

pub mod cli;
pub mod config;
pub mod console;
pub mod control;
pub mod csv;
pub mod id_params;
pub mod joint_file;
pub mod numeric;
pub mod pd_targets;
pub mod text;
pub mod vendor;
pub mod urdf;
pub mod utf8;

verus! {

} // verus!

//! A minimal SSH connection manager: a store of named hosts, an SSH config
//! importer, and the decisions of each command (add, edit, remove, list,
//! connect, import, doctor), each proved against its contract.
//!
//! Reading and writing files, running `ssh` and probing hosts are left to the
//! caller, which hands these functions plain values and acts on what they
//! return.
use vstd::prelude::*;

pub mod commands;
pub mod error;
pub mod storage;
pub mod tags;
pub mod text;

verus! {

} // verus!

//! A local network application that tunnels can be opened towards.
use vstd::prelude::*;

verus! {

#[derive(Debug, Clone, PartialEq)]
pub struct Application {
    pub name: String,
    /// Host address in textual form; resolving and probing it is the
    /// collaborators' business, the core only threads it through.
    pub host_ip: String,
    pub port: i32,
    pub end_point: String,
}

} // verus!

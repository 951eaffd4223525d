//! Configuration-driven launcher for containerised actions: the templating and
//! flag-assembly engine, with its behaviour stated in contracts.

pub mod docker;
pub mod launch;
pub mod std_specs;

//! Numerical integration of networks of nodes that are coupled with delay.
//!
//! Every node runs a continuous-time model; directed edges carry what a node emits to
//! other nodes, scaled, turned in phase and delayed. The crate holds the topology
//! (`network`), the delay lines and their weighted reads (`ring`, `history`), the
//! Runge-Kutta step that interpolates the delayed input (`integration_methods`), the
//! assemblies of one or many nodes (`composite_system`) and the run that counts steps and
//! fills segments of output (`calculation`, `timeseries`, `simplify_timeseries`).
//!
//! No number type is built in. Models choose the scalars they compute in; contracts say
//! exactly what is computed for every scalar type whose operators are functions of their
//! operands, and say what does not depend on arithmetic for every other.

pub mod calculation;
pub mod composite_system;
pub mod dynamical_system;
pub mod history;
pub mod integration_methods;
pub mod label;
pub mod lorenz;
pub mod network;
pub mod ring;
pub mod roessler;
pub mod scalar;
pub mod simplify_timeseries;
pub mod slots;
pub mod timer;
pub mod timeseries;

//! Editing of dependency-lock graphs: resolving input references, counting
//! how often each node is reached from the root, redirecting second-level
//! inputs to the root's inputs of the same name, and pruning what is no
//! longer reachable.
//!
//! The graph and its lookups are in [`flake_lock`], its mathematical model
//! in [`model`]. The algorithms on it are in [`visits`], [`substitute`] and
//! [`prune`]; what holds of them on every graph is stated in [`laws`] and
//! proved with the help of [`walks`], [`closure`], [`bounds`], [`cuts`] and
//! [`order`]. Around these stand the settings of the command line in
//! [`cli_args`], coloured text in [`fmt_colors`], the table of counts in
//! [`report`] and the layout of a drawing in [`dot_graph`].

pub mod cli_args;
pub mod table;
pub mod model;
pub mod flake_lock;
pub mod visits;
pub mod substitute;
pub mod prune;
pub mod walks;
pub mod closure;
pub mod bounds;
pub mod cuts;
pub mod order;
pub mod laws;
pub mod fmt_colors;
pub mod report;
pub mod dot_graph;

//! Installs language profiles and keyboard layouts into a model of the
//! system's hierarchical configuration store: allocates the interdependent
//! identifiers (transient language ids, layout orders, substitute ids,
//! preload positions, layout driver ids) and writes them consistently.
pub mod text;
pub mod store;
pub mod ids;
pub mod profile;
pub mod keyboard;
pub mod languages;

//! Developer toolchain: manifest linting, bundle packaging, project scaffolding and the
//! offline sandbox driver.
pub mod lint;
pub mod pack;
pub mod scaffold;
pub mod sandbox;

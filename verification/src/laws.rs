//! Laws that relate several operations.
pub mod domains;
pub mod instances;
pub mod locks;
pub mod periods;
pub mod processes;
pub mod races;
pub mod readers;
pub mod registration;
pub mod runs;
pub mod threads;
pub mod writes;

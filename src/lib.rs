//! A declarative task runner: lifecycle sections of shell steps, reusable
//! blocks, and an environment store whose entries carry their provenance.

pub mod config_model;
pub mod environment;
pub mod error;
pub mod parser;
pub mod runner;
pub mod text;

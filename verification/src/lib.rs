//! ripenv: a pipenv-compatible front end for a modern resolution engine.
//!
//! The library holds the verified core: the Pipfile data model, its TOML
//! reader and writer, the bridge that converts a Pipfile into a project
//! manifest the resolution engine consumes, and the reconstruction of a
//! `Pipfile.lock` artifact from the engine's resolved graph.

pub mod bridge;
pub mod cli;
pub mod discovery;
pub mod dispatch;
pub mod install;
pub mod jsonout;
pub mod lockfile;
pub mod model;
pub mod parser;
pub mod printer;
pub mod reach;
pub mod strmap;
pub mod text;
pub mod writer;

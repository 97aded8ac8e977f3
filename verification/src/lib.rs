//! Keeping the profiles of a VS Code OSS–based editor in sync with a
//! declarative config: layering the config into a desired state per profile,
//! comparing it with the editor's state and the last-synced snapshot, and
//! deciding what each side becomes.

pub mod json;
pub mod text;
pub mod collections;
pub mod settings;
pub mod fspath;
pub mod config;
pub mod snapshot;
pub mod editor;
pub mod sync;
pub mod app_config;
pub mod safety;
pub mod extension;
pub mod cli;
pub mod session;
pub mod jsonc;

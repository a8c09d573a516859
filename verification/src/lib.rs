pub mod archive;
pub mod checksum;
pub mod commands;
pub mod package;
pub mod subst;
pub mod toml_read;

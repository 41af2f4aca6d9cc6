//! Verified core of a container daemon.

pub mod actions;
pub mod answers;
pub mod archive;
pub mod auth;
pub mod begun_jobs;
pub mod bytes;
pub mod container_lifecycle;
pub mod disk;
pub mod disk_path;
pub mod file_mode;
pub mod file_operations;
pub mod file_plan;
pub mod filesystem_direct;
pub mod host_path;
pub mod installation;
pub mod listed_entries;
pub mod listing;
pub mod mimetype;
pub mod models;
pub mod monitoring;
pub mod network;
pub mod number;
pub mod order;
pub mod path_parts;
pub mod place;
pub mod port_binding;
pub mod port_list;
pub mod recreation;
pub mod remote;
pub mod text;
pub mod time;
pub mod utf8_cut;
pub mod volume_path;
pub mod written_place;
pub mod zip_archive;
pub mod zip_round_trip;
pub mod zip_unpacking;

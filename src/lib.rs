pub mod config;
pub mod dashboard;
pub mod digits;
pub mod email_service;
pub mod entry;
pub mod fields;
pub mod healthcheck;
pub mod listener;
pub mod row;
pub mod stats_file;
pub mod text;
pub mod token;

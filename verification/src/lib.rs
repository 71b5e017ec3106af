//! LaX: the logic of a portable local web stack (Apache or Nginx, MariaDB,
//! PHP, Mailpit) — configuration, generated server files, project discovery,
//! PHP extension management, hosts-file blocks, update handling.
pub mod commands;
pub mod config;
pub mod db;
pub mod discover;
pub mod error;
pub mod hosts;
pub mod logs;
pub mod paths;
pub mod php;
pub mod platform;
pub mod portable;
pub mod process;
pub mod projects;
pub mod services;
pub mod state;
pub mod text;
pub mod update;
pub mod vhosts;

//! The logic of a small Linux distribution's toolchain: a package manager, a
//! package builder, an initramfs generator and a chroot helper.

pub mod archive;
pub mod batch;
pub mod chroot;
pub mod cli;
pub mod config;
pub mod database;
pub mod downloader;
pub mod error;
pub mod extract;
pub mod hash;
pub mod hooks;
pub mod init;
pub mod json;
pub mod lkchroot;
pub mod lkinit;
pub mod lkmake;
pub mod making;
pub mod manager;
pub mod path;
pub mod pkg_utils;
pub mod plan;
pub mod progress;
pub mod rawpath;
pub mod readback;
pub mod recipe;
pub mod removal;
pub mod repo;
pub mod session;
pub mod staging;
pub mod text;
pub mod ui;
pub mod url;

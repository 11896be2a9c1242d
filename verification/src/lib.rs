pub mod action;
pub mod apply;
pub mod bus;
pub mod command;
pub mod config;
pub mod controller;
pub mod daemon;
pub mod dpi;
pub mod edit;
pub mod editor_law;
pub mod error;
pub mod export;
pub mod gui;
pub mod input;
pub mod journal;
pub mod keyed;
pub mod overlay_law;
pub mod panel;
pub mod plan_law;
pub mod ratbag;
pub mod readback;
pub mod reading;
pub mod report;
pub mod restore;
pub mod settle;
pub mod staging_law;
pub mod sync;
pub mod text;
pub mod writing;

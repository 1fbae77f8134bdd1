//! Core logic of the spitfire Wayland compositor: layout, workspaces, windows,
//! drawing order, captures, the bar, the configuration and the control socket.
//!
//! Windows, outputs and surfaces are known by numbers. What has to be done to
//! them is returned as a list of steps that the compositor carries out.

pub mod action;
pub mod anim;
pub mod bar;
pub mod binary32;
pub mod binary64;
pub mod bind;
pub mod blur;
pub mod border;
pub mod cache;
pub mod capture;
pub mod capture_session;
pub mod color;
pub mod command;
pub mod config;
pub mod desktop;
pub mod ext_workspace;
pub mod fibonacci;
pub mod frame;
pub mod fullscreen;
pub mod geometry;
pub mod gesture;
pub mod glyph;
pub mod input;
pub mod ipc;
pub mod keysym;
pub mod layout;
pub mod monocle;
pub mod motion;
pub mod outputs;
pub mod params;
pub mod repaint;
pub mod requests;
pub mod rule;
pub mod scene;
pub mod scratchpad;
pub mod script;
pub mod shell;
pub mod ssd;
pub mod status;
pub mod sysinfo;
pub mod text;
pub mod tile;
pub mod tiling;
pub mod toplevel;
pub mod windows;
pub mod workspace;
pub mod x11;

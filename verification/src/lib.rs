//! Core logic of a small launcher for the zapret DPI-bypass tool: reading
//! `general*.bat` strategy files, choosing strategies, tracking the
//! `winws.exe` process and the start/stop protocol around it.

pub mod text;
pub mod strategies;
pub mod paths;
pub mod settings;
pub mod zapret;
pub mod state;

pub mod commands;
pub mod gco;
pub mod gscript_lib;
pub mod program;
pub mod text;

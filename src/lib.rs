pub mod codec;
pub mod commands;
pub mod outside;
pub mod session;
pub mod supervisor;
pub mod text;

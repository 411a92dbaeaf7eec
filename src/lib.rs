pub mod args;
pub mod makefile;
pub mod session;
pub mod text;
pub mod worker;

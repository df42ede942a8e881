pub mod clone;
pub mod command;
pub mod error;
pub mod github;
pub mod logging;
pub mod paths;
pub mod process;
pub mod scan;
pub mod security_fork;
pub mod text;

//! Reading a server configuration: the text is parsed into sections, the
//! sections are built into a typed configuration, and the configuration is
//! checked for consistency.

pub mod error;
pub mod files;
pub mod loader;
pub mod models;
pub mod parser;
pub mod sections;
pub mod text;
pub mod theorems;
pub mod validator;

pub use error::{ConfigError, ErrorKind, Field, PathNeed};
pub use files::{PathKind, PathTable};
pub use loader::ConfigLoader;
pub use models::{CgiConfig, GlobalConfig, Redirect, Route, ServerConfig, VirtualServer};
pub use parser::IniParser;
pub use sections::{Section, Sections};
pub use validator::ConfigValidator;

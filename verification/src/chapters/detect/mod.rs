//! Automatic chapter detection by external tools.
pub mod allin1;
pub mod ssm;

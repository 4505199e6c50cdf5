//! The library's error type.
use vstd::prelude::*;

use crate::text::{chars_of, push_all, string_from};

verus! {

/// Errors the library reports. Failures of I/O, the database and network
/// services are reported by the application around the library.
#[derive(Debug)]
pub enum NotataError {
    Provider { provider: String, message: String },
    NotFound(String),
    Custom(String),
}

/// The text an error displays.
pub open spec fn error_text(e: NotataError) -> Seq<char> {
    match e {
        NotataError::Provider { provider, message } => "Provider error ("@ + provider@ + "): "@
            + message@,
        NotataError::NotFound(what) => "Not found: "@ + what@,
        NotataError::Custom(m) => m@,
    }
}

impl NotataError {
    /// The error's display text.
    pub fn message(&self) -> (r: String)
        ensures
            r@ == error_text(*self),
    {
        match self {
            NotataError::Provider { provider, message } => {
                let mut v = chars_of("Provider error (");
                let p = chars_of(provider.as_str());
                push_all(&mut v, p.as_slice());
                let mid = chars_of("): ");
                push_all(&mut v, mid.as_slice());
                let m = chars_of(message.as_str());
                push_all(&mut v, m.as_slice());
                string_from(v.as_slice())
            },
            NotataError::NotFound(what) => {
                let mut v = chars_of("Not found: ");
                let w = chars_of(what.as_str());
                push_all(&mut v, w.as_slice());
                string_from(v.as_slice())
            },
            NotataError::Custom(m) => {
                let v = chars_of(m.as_str());
                string_from(v.as_slice())
            },
        }
    }
}

} // verus!

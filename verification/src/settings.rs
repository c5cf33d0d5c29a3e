//! Stored preferences.

use vstd::prelude::*;

use crate::models::{default_settings, tidied, Settings};

verus! {

/// The settings that a stored file gives: those it holds, made fit, or the
/// defaults where there is no file or it could not be read.
pub fn loaded(stored: Option<Settings>) -> (res: Settings)
    ensures
        match stored {
            Some(s) => res@ == tidied(s@),
            None => res@ == default_settings(),
        },
{
    match stored {
        Some(s) => s.sanitized(),
        None => Settings::default(),
    }
}

} // verus!

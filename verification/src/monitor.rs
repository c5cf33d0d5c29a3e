//! The live session of a Komari backend, by its messages.

use vstd::prelude::*;

use crate::urls::{origin_from, origin_of, url_parts};

pub use crate::providers::komari::parse_ws_text;

verus! {

/// Origin header for the WS handshake (bypasses no origin check failures on
/// public sites without an API key).
pub fn origin_of_safe(base: &str) -> (out: String)
    ensures
        out@ == origin_from(base@, url_parts(base@)),
{
    origin_of(base)
}

} // verus!

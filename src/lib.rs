//! Runtime support for compiled HTML templates: deferred, replayable markup and a
//! streaming HTML escaper.
use vstd::prelude::*;

pub mod entities;
pub mod markup;
pub mod rt;
pub mod writer;

use crate::entities::escaped;
use crate::rt::Escaper;
use crate::writer::Write;

verus! {

/// Escapes the five HTML-special characters of `s` into a fresh string.
pub fn escape(s: &str) -> (r: String)
    ensures
        r@ == escaped(s@),
{
    let mut buf = String::new();
    let _ = Escaper::new(&mut buf).write_str(s);
    buf
}

} // verus!

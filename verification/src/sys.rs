//! The one type the library shares with the binding layer of the geometry engine.

use vstd::prelude::*;

verus! {

/// The state of one run of the geometry engine. The library never looks inside it: a
/// program that embeds the library points at one while it copies the engine's report into
/// a `RawHull` or a `RawDelaunay`, and releases it before the facade is used.
#[allow(non_camel_case_types)]
pub struct qhT {
    _empty: [u8; 0],
}

} // verus!

//! Reads player positions out of in-game debug commands and draws the
//! positions seen so far as a top-down ASCII map.
use vstd::prelude::*;

pub mod extract;
pub mod location;
pub mod number;
pub mod render;
pub mod text;

pub use extract::extract_location;
pub use location::{Dimension, Location, LocationRecord, Method};
pub use render::{format_num, render};

verus! {

} // verus!

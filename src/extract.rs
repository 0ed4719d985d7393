use vstd::prelude::*;

use crate::location::{Dimension, Location, LocationRecord, Method};
use crate::number::{decimal_milli, parse_milli};
use crate::text::{chars_equal, has_prefix, split_tokens, starts_with, tokens};

verus! {

/// The dimension that a dimension identifier names, if any.
pub open spec fn dimension_named(t: Seq<char>) -> Option<Dimension> {
    if t == "minecraft:overworld"@ {
        Some(Dimension::Overworld)
    } else if t == "minecraft:the_nether"@ {
        Some(Dimension::Nether)
    } else if t == "minecraft:the_end"@ {
        Some(Dimension::End)
    } else {
        None
    }
}

/// The record built from three coordinate tokens, a dimension and a method,
/// when all three tokens are numerals.
pub open spec fn record_from(
    x: Seq<char>,
    y: Seq<char>,
    z: Seq<char>,
    dimension: Option<Dimension>,
    method: Method,
) -> Option<LocationRecord> {
    match (decimal_milli(x), decimal_milli(y), decimal_milli(z), dimension) {
        (Some(x), Some(y), Some(z), Some(dimension)) => Some(
            LocationRecord {
                location: Location { x: x as i64, y: y as i64, z: z as i64, dimension },
                method,
            },
        ),
        _ => None,
    }
}

/// The position that a line of text describes, if it is one of the two
/// recognised commands:
/// `/execute in <dimension> run tp @s <x> <y> <z> ...`, or
/// `/setblock <x> <y> <z> ...`, which is always in the overworld.
pub open spec fn location_of(s: Seq<char>) -> Option<LocationRecord> {
    let t = tokens(s);
    if has_prefix(s, "/execute in"@) {
        if t.len() >= 9 {
            record_from(t[6], t[7], t[8], dimension_named(t[2]), Method::F3C)
        } else {
            None
        }
    } else if has_prefix(s, "/setblock"@) {
        if t.len() >= 4 {
            record_from(t[1], t[2], t[3], Some(Dimension::Overworld), Method::F3I)
        } else {
            None
        }
    } else {
        None
    }
}

/// Extraction depends on the text alone: equal texts give equal results.
pub proof fn lemma_extract_deterministic(a: Seq<char>, b: Seq<char>)
    requires
        a == b,
    ensures
        location_of(a) == location_of(b),
{
}

fn dimension_of(t: &Vec<char>) -> (r: Option<Dimension>)
    ensures
        r == dimension_named(t@),
{
    if chars_equal(t, "minecraft:overworld") {
        Some(Dimension::Overworld)
    } else if chars_equal(t, "minecraft:the_nether") {
        Some(Dimension::Nether)
    } else if chars_equal(t, "minecraft:the_end") {
        Some(Dimension::End)
    } else {
        None
    }
}

fn build_record(
    x: &Vec<char>,
    y: &Vec<char>,
    z: &Vec<char>,
    dimension: Option<Dimension>,
    method: Method,
) -> (r: Option<LocationRecord>)
    ensures
        r == record_from(x@, y@, z@, dimension, method),
        r matches Some(rec) ==> rec.wf(),
{
    let x = parse_milli(x)?;
    let y = parse_milli(y)?;
    let z = parse_milli(z)?;
    let dimension = dimension?;
    Some(LocationRecord { location: Location { x, y, z, dimension }, method })
}

/// Reads a position from a line of text; `None` when the text is not one of
/// the recognised commands or is malformed.
pub fn extract_location(text: &str) -> (r: Option<LocationRecord>)
    ensures
        r == location_of(text@),
        r matches Some(rec) ==> rec.wf(),
{
    if starts_with(text, "/execute in") {
        let parts = split_tokens(text);
        if parts.len() >= 9 {
            let dimension = dimension_of(&parts[2]);
            build_record(&parts[6], &parts[7], &parts[8], dimension, Method::F3C)
        } else {
            None
        }
    } else if starts_with(text, "/setblock") {
        let parts = split_tokens(text);
        if parts.len() >= 4 {
            build_record(&parts[1], &parts[2], &parts[3], Some(Dimension::Overworld), Method::F3I)
        } else {
            None
        }
    } else {
        None
    }
}

} // verus!

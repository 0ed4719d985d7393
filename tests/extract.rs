use coordmap::number::parse_milli;
use coordmap::text::split_tokens;
use coordmap::{extract_location, Dimension, Location, LocationRecord, Method};

fn chars(s: &str) -> Vec<char> {
    s.chars().collect()
}

#[test]
fn teleport_command_in_overworld() {
    let r = extract_location("/execute in minecraft:overworld run tp @s -246.50 69.00 -18.50 0.00 0.00");
    assert_eq!(
        r,
        Some(LocationRecord {
            location: Location { x: -246_500, y: 69_000, z: -18_500, dimension: Dimension::Overworld },
            method: Method::F3C,
        })
    );
}

#[test]
fn setblock_command() {
    let r = extract_location("/setblock -250 68 -17 minecraft:grass_block[snowy=false]");
    assert_eq!(
        r,
        Some(LocationRecord {
            location: Location { x: -250_000, y: 68_000, z: -17_000, dimension: Dimension::Overworld },
            method: Method::F3I,
        })
    );
}

#[test]
fn unrelated_text_gives_nothing() {
    assert_eq!(extract_location("hello world"), None);
    assert_eq!(extract_location(""), None);
}

#[test]
fn too_few_tokens_gives_nothing() {
    assert_eq!(extract_location("/execute in minecraft:overworld run tp @s -246.50 69.00"), None);
    assert_eq!(extract_location("/setblock 1 2"), None);
}

#[test]
fn extraction_is_deterministic() {
    let text = "/execute in minecraft:the_end run tp @s 10.25 70.00 -3.75 0.00 0.00";
    assert_eq!(extract_location(text), extract_location(text));
    assert!(extract_location(text).is_some());
}

#[test]
fn nether_and_end_dimensions() {
    let n = extract_location("/execute in minecraft:the_nether run tp @s 1.00 2.00 3.00 0.00 0.00").unwrap();
    assert_eq!(n.location.dimension, Dimension::Nether);
    assert_eq!((n.location.x, n.location.y, n.location.z), (1_000, 2_000, 3_000));
    let e = extract_location("/execute in minecraft:the_end run tp @s 1.00 2.00 3.00 0.00 0.00").unwrap();
    assert_eq!(e.location.dimension, Dimension::End);
}

#[test]
fn unknown_dimension_is_rejected() {
    assert_eq!(extract_location("/execute in minecraft:moon run tp @s 1.00 2.00 3.00 0.00 0.00"), None);
}

#[test]
fn non_numeric_coordinate_is_rejected() {
    assert_eq!(extract_location("/execute in minecraft:overworld run tp @s ~ 2.00 3.00 0.00 0.00"), None);
    assert_eq!(extract_location("/setblock 1 two 3 minecraft:stone"), None);
}

#[test]
fn other_white_space_separates_tokens() {
    let r = extract_location("/setblock\t5  -6\n7.5 minecraft:stone").unwrap();
    assert_eq!((r.location.x, r.location.y, r.location.z), (5_000, -6_000, 7_500));
}

#[test]
fn tokens_are_maximal_runs() {
    let t = split_tokens("  ab c\t\tdef ");
    assert_eq!(t, vec![chars("ab"), chars("c"), chars("def")]);
    assert!(split_tokens(" \n ").is_empty());
}

#[test]
fn numerals_in_thousandths() {
    assert_eq!(parse_milli(&chars("-246.50")), Some(-246_500));
    assert_eq!(parse_milli(&chars("+3")), Some(3_000));
    assert_eq!(parse_milli(&chars(".5")), Some(500));
    assert_eq!(parse_milli(&chars("5.")), Some(5_000));
    assert_eq!(parse_milli(&chars("1.23456")), Some(1_234));
    assert_eq!(parse_milli(&chars("-0.05")), Some(-50));
}

#[test]
fn malformed_numerals_are_rejected() {
    assert_eq!(parse_milli(&chars("")), None);
    assert_eq!(parse_milli(&chars("-")), None);
    assert_eq!(parse_milli(&chars(".")), None);
    assert_eq!(parse_milli(&chars("1.2.3")), None);
    assert_eq!(parse_milli(&chars("1e3")), None);
    assert_eq!(parse_milli(&chars("--1")), None);
    assert_eq!(parse_milli(&chars("1000000000000")), None);
    assert_eq!(parse_milli(&chars("999999999999.999")), Some(999_999_999_999_999));
}

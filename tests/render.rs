use coordmap::render::compute_scale;
use coordmap::{format_num, render, Dimension, Location, LocationRecord, Method};

fn record(x: i64, z: i64, dimension: Dimension) -> LocationRecord {
    LocationRecord { location: Location { x, y: 64_000, z, dimension }, method: Method::F3C }
}

fn grid_rows(map: &str) -> Vec<String> {
    let lines: Vec<&str> = map.lines().collect();
    lines[2..lines.len() - 1].iter().map(|l| l.to_string()).collect()
}

fn markers(map: &str) -> usize {
    grid_rows(map).iter().map(|l| l.chars().filter(|c| *c == 'X').count()).sum()
}

#[test]
fn labels() {
    assert_eq!(format_num(500), " 500");
    assert_eq!(format_num(2200), "2.2k");
    assert_eq!(format_num(22000), " 22k");
    assert_eq!(format_num(0), " 0");
    assert_eq!(format_num(999), " 999");
    assert_eq!(format_num(1000), "1k");
    assert_eq!(format_num(2005), "2.0k");
    assert_eq!(format_num(5256), "5.2k");
    assert_eq!(format_num(123456), " 12k");
}

#[test]
fn render_twice_is_identical() {
    let h = vec![record(1_000_000, -2_000_000, Dimension::Overworld), record(5_000, 0, Dimension::Nether)];
    assert_eq!(render(&h, 30), render(&h, 30));
}

#[test]
fn empty_history_map() {
    let h: Vec<LocationRecord> = Vec::new();
    assert_eq!(compute_scale(&h), 512_000);
    let map = render(&h, 20);
    assert_eq!(markers(&map), 0);
    let lines: Vec<&str> = map.lines().collect();
    assert_eq!(lines.len(), 13);
    assert_eq!(lines[0], "     - 512  - 256  0    256    512");
    assert_eq!(lines[1], format!("{}-X-", " ".repeat(18)));
    assert_eq!(lines[2], format!("- 512    {}|{}", " ".repeat(10), " ".repeat(10)));
    assert_eq!(lines[7], format!("0    -Z- {}+{} +Z+", "-".repeat(10), "-".repeat(10)));
    assert_eq!(lines[12], format!("{}+X+", " ".repeat(18)));
}

#[test]
fn row_labels() {
    let map = render(&Vec::new(), 20);
    let rows = grid_rows(&map);
    assert!(rows[0].starts_with("- 512    "));
    assert!(rows[2].starts_with("- 256    "));
    assert!(rows[7].starts_with("  256    "));
    assert!(rows[9].starts_with("  512    "));
    assert!(rows[1].starts_with("         "));
}

#[test]
fn record_at_origin_marks_its_neighbourhood() {
    let h = vec![record(0, 0, Dimension::Overworld)];
    let rows = grid_rows(&render(&h, 20));
    assert_eq!(rows[1], format!("         {}|{}", " XXXXXXXXX", "X".repeat(10)));
    assert_eq!(rows[0], format!("- 512    {}|{}", " ".repeat(10), " ".repeat(10)));
}

#[test]
fn other_dimensions_widen_but_do_not_mark() {
    let h = vec![record(10_000_000, 0, Dimension::Nether), record(0, -3_000_000, Dimension::End)];
    assert_eq!(compute_scale(&h), 10_512_000);
    let map = render(&h, 40);
    assert_eq!(markers(&map), 0);
    assert!(map.lines().next().unwrap().contains(" 10k"));
    assert!(map.lines().next().unwrap().contains("5.2k"));
}

#[test]
fn nearest_cell_is_marked() {
    let h = vec![record(1_000_000, -2_000_000, Dimension::Overworld)];
    let rows = grid_rows(&render(&h, 40));
    let row: Vec<char> = rows[2].chars().collect();
    assert_eq!(row[9 + 21 + 8], 'X');
}

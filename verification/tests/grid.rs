use seamingly_epic::config::GridSpec;
use seamingly_epic::grid::parse_grid;

#[test]
fn parses_grid_shorthand() {
    assert_eq!(
        parse_grid("5x3").unwrap(),
        GridSpec {
            columns: 5,
            rows: 3
        }
    );
    assert!(parse_grid("5").is_err());
    assert!(parse_grid("0x2").is_err());
}

#[test]
fn grid_shorthand_ignores_whitespace_and_case() {
    assert_eq!(
        parse_grid("  2X1\t").unwrap(),
        GridSpec {
            columns: 2,
            rows: 1
        }
    );
    assert_eq!(
        parse_grid("+12x007").unwrap(),
        GridSpec {
            columns: 12,
            rows: 7
        }
    );
    assert_eq!(
        parse_grid("\u{3000}4x4\u{a0}").unwrap(),
        GridSpec {
            columns: 4,
            rows: 4
        }
    );
}

#[test]
fn grid_shorthand_reports_each_refusal() {
    assert_eq!(
        parse_grid("5").unwrap_err(),
        "grid must use COLSxROWS syntax, for example 2x2"
    );
    assert_eq!(
        parse_grid("ax2").unwrap_err(),
        "grid column count is not an unsigned integer"
    );
    assert_eq!(
        parse_grid("2x-1").unwrap_err(),
        "grid row count is not an unsigned integer"
    );
    assert_eq!(
        parse_grid("2x4294967296").unwrap_err(),
        "grid row count is not an unsigned integer"
    );
    assert_eq!(
        parse_grid("x2").unwrap_err(),
        "grid column count is not an unsigned integer"
    );
    assert_eq!(
        parse_grid("2x 2").unwrap_err(),
        "grid row count is not an unsigned integer"
    );
    assert_eq!(parse_grid("3x0").unwrap_err(), "grid dimensions must be non-zero");
    assert_eq!(
        parse_grid("4294967295x1").unwrap(),
        GridSpec {
            columns: u32::MAX,
            rows: 1
        }
    );
}

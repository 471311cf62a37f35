use endless_sketch::camera::{doubles_match, CameraAddress};
use endless_sketch::coordinates::{
    clamp_quick_depth, depth_jump, format_overlay_coordinate, lateral_jump,
    parse_lateral_coordinate, CoordinateOverlayCache, LateralJump,
};
use endless_sketch::coords::{checked_pow_bigint, relative_tile, screen_delta_levels};
use endless_sketch::overlay::{
    canvas_overlay_text, performance_text, texture_name, tile_state_text, OverlayFacts,
    OverlaySettings,
};
use endless_sketch::selection_bounds::overlay_depth_delta;
use endless_sketch::stress::{clamp_depth_radius, depth_band_count, mix, synthetic_operation};
use endless_sketch::text::{decimal, natural};
use endless_sketch::tile_index::TileIndex;
use endless_sketch::tile_requests::DepthRenderMode;
use endless_sketch::tile_view::TileKey;
use num_bigint::BigInt;

fn index_of(number: &BigInt) -> TileIndex {
    TileIndex::from_signed_bytes_le(number.to_signed_bytes_le())
}

fn tile(number: i64) -> TileIndex {
    index_of(&BigInt::from(number))
}

fn number(index: &TileIndex) -> BigInt {
    BigInt::from_signed_bytes_le(&index.to_signed_bytes_le())
}

fn parsed(text: &str) -> Option<BigInt> {
    parse_lateral_coordinate(text).map(|index| number(&index))
}

/// What is shown unless other settings are chosen.
const STANDARD: OverlaySettings = OverlaySettings {
    enabled: true,
    show_depth: false,
    show_zoom: true,
    show_operation_count: true,
    show_performance: true,
    show_status: true,
    show_tile_state: true,
    show_tile_coordinates: false,
    show_local_coordinates: false,
};

fn facts() -> OverlayFacts {
    OverlayFacts {
        depth: 0,
        zoom: "1.000".to_string(),
        operation_count: 0,
        performance: "fps --".to_string(),
        status: "Ready".to_string(),
        tile_state: String::new(),
        tile_x: "0".to_string(),
        tile_y: "0".to_string(),
        local_x: "0.000000".to_string(),
        local_y: "0.000000".to_string(),
    }
}

#[test]
fn quick_depth_target_is_bounded_for_interactive_navigation() {
    assert_eq!(clamp_quick_depth(i64::MIN), -10_000);
    assert_eq!(clamp_quick_depth(-100), -100);
    assert_eq!(clamp_quick_depth(100), 100);
    assert_eq!(clamp_quick_depth(i64::MAX), 10_000);
}

#[test]
fn lateral_coordinate_parser_accepts_bounded_decimal_and_scientific_integers() {
    assert_eq!(parsed("0"), Some(BigInt::from(0)));
    assert_eq!(parsed("-123"), Some(BigInt::from(-123)));
    assert_eq!(parsed("1e100"), Some(BigInt::from(10u8).pow(100)));
    assert_eq!(parsed("-25E+3"), Some(BigInt::from(-25_000)));
    assert!(parse_lateral_coordinate("1.5e3").is_none());
    assert!(parse_lateral_coordinate("1e-3").is_none());
    assert!(parse_lateral_coordinate("1e10000").is_none());
    assert!(parse_lateral_coordinate("1e2e3").is_none());
}

#[test]
fn overlay_coordinate_formatter_bounds_extreme_bigints() {
    assert_eq!(format_overlay_coordinate(&tile(-123_456)), "-123456");
    let huge = BigInt::from(10u8).pow(100);
    assert_eq!(format_overlay_coordinate(&index_of(&huge)), "1e100");
    assert_eq!(format_overlay_coordinate(&index_of(&-huge)), "-1e100");
    let arbitrary = "123456789012345678901234567890".parse::<BigInt>().unwrap();
    assert_eq!(format_overlay_coordinate(&index_of(&arbitrary)), "12345678...34567890 (30d)");
}

#[test]
fn standard_overlay_matches_the_post_navigation_display() {
    let text = canvas_overlay_text(
        &STANDARD,
        &OverlayFacts {
            operation_count: 42,
            performance: "fps 60.0 (16.7 ms)".to_string(),
            tile_state: "tiles paused".to_string(),
            tile_x: "123".to_string(),
            tile_y: "456".to_string(),
            ..facts()
        },
    )
    .expect("standard overlay");

    assert!(text.contains("zoom 1.000x"));
    assert!(text.contains("42 ops"));
    assert!(text.contains("fps 60.0 (16.7 ms)"));
    assert!(text.contains("Ready"));
    assert!(text.contains("tiles paused"));
    assert!(!text.contains("depth"));
    assert!(!text.contains("tile X"));
    assert!(!text.contains("local X"));
}

#[test]
fn diagnostic_overlay_includes_depth_and_coordinates() {
    let settings = OverlaySettings {
        show_depth: true,
        show_tile_coordinates: true,
        show_local_coordinates: true,
        ..STANDARD
    };
    let text = canvas_overlay_text(
        &settings,
        &OverlayFacts {
            depth: 12,
            operation_count: 7,
            tile_x: "1e100".to_string(),
            tile_y: "-5".to_string(),
            local_x: "0.250000".to_string(),
            local_y: "-0.500000".to_string(),
            ..facts()
        },
    )
    .expect("diagnostic overlay");

    assert!(text.contains("depth 12"));
    assert!(text.contains("tile X 1e100"));
    assert!(text.contains("tile Y -5"));
    assert!(text.contains("local X 0.250000   Y -0.500000"));
    assert_eq!(
        text,
        "depth 12   zoom 1.000x   7 ops   fps --   Ready\ntile X 1e100\ntile Y -5\n\
         local X 0.250000   Y -0.500000"
    );
}

#[test]
fn disabled_or_empty_custom_overlay_renders_nothing() {
    let disabled = OverlaySettings { enabled: false, ..STANDARD };
    assert!(canvas_overlay_text(&disabled, &facts()).is_none());

    let empty = OverlaySettings {
        enabled: true,
        show_depth: false,
        show_zoom: false,
        show_operation_count: false,
        show_performance: false,
        show_status: false,
        show_tile_state: false,
        show_tile_coordinates: false,
        show_local_coordinates: false,
    };
    assert!(canvas_overlay_text(&empty, &facts()).is_none());
}

#[test]
fn far_depths_count_as_forty_levels() {
    assert_eq!(overlay_depth_delta(5, 3), 2);
    assert_eq!(overlay_depth_delta(1000, 0), 40);
    assert_eq!(overlay_depth_delta(i64::MIN, i64::MAX), -40);
}

#[test]
fn coordinates_are_read_back_as_they_are_written() {
    for value in ["0", "-7", "170141183460469231731687303715884105728"] {
        let index = parse_lateral_coordinate(value).expect("a number");
        let mut cache = CoordinateOverlayCache::new();
        cache.update(&index, &tile(-3));
        assert_eq!(cache.exact_x, value);
        assert_eq!(cache.exact_y, "-3");
    }
    assert_eq!(parsed("  12 "), Some(BigInt::from(12)));
    assert_eq!(parsed(""), None);
    assert_eq!(parsed("+5"), Some(BigInt::from(5)));
}

#[test]
fn jumps_name_what_they_do() {
    let jump = depth_jump(20_000, 3);
    assert_eq!(jump.target, 10_000);
    assert!(jump.moves);
    assert_eq!(jump.message, "Depth 10000");
    assert_eq!(depth_jump(-4, -4).message, "Already at depth -4");
    assert_eq!(lateral_jump("x", "1").message(), "Invalid Tile X");
    assert_eq!(lateral_jump("1", "y").message(), "Invalid Tile Y");
    match lateral_jump("2e3", "-1") {
        LateralJump::To(x, y) => {
            assert_eq!(number(&x), BigInt::from(2000));
            assert_eq!(number(&y), BigInt::from(-1));
        }
        _ => panic!("both are numbers"),
    }
}

/// A position on one axis in eighths of eighths, so that all steps are exact.
#[test]
fn tiles_are_measured_from_the_camera() {
    let far = BigInt::from(8u8).pow(50) + 3;
    let relative = relative_tile(0, &index_of(&far), 2, &index_of(&(far.clone() * 64)))
        .expect("near enough");
    assert!(relative.camera_is_deeper);
    assert_eq!(relative.levels, 2);
    assert_eq!(number(&relative.offset), BigInt::from(0));
    let above = relative_tile(3, &tile(9), 2, &tile(1)).expect("near enough");
    assert!(!above.camera_is_deeper);
    assert_eq!(number(&above.offset), BigInt::from(1));
    assert!(relative_tile(0, &tile(0), 341, &tile(0)).is_none());
    assert!(relative_tile(0, &tile(0), 340, &tile(0)).is_some());
    assert_eq!(number(&checked_pow_bigint(3).expect("small")), BigInt::from(512));
    assert!(checked_pow_bigint(u64::MAX).is_none());
    assert_eq!(screen_delta_levels(5, 3), Some((2, true)));
    assert_eq!(screen_delta_levels(3, 5), Some((2, false)));
    assert_eq!(screen_delta_levels(i64::MAX, i64::MIN), None);
}

#[test]
fn tile_numbers_shift_by_any_amount() {
    let far = BigInt::from(2u8).pow(200);
    assert_eq!(number(&index_of(&far).shifted(-1)), far.clone() - 1);
    assert!(index_of(&far).same_as(&index_of(&far)));
    assert!(!index_of(&far).same_as(&tile(0)));
}

#[test]
fn cameras_compare_as_numbers_do() {
    let camera = CameraAddress {
        depth: 1,
        tile_x: tile(1),
        tile_y: tile(2),
        local_x: 0.0f64.to_bits(),
        local_y: 0.5f64.to_bits(),
        zoom: 1.0f64.to_bits(),
    };
    let mut other = camera.clone();
    other.local_x = (-0.0f64).to_bits();
    assert!(camera.same_as(&other));
    other.zoom = f64::NAN.to_bits();
    assert!(!other.same_as(&other));
    assert!(!doubles_match(f64::NAN.to_bits(), f64::NAN.to_bits()));
    assert!(!doubles_match(1.0f64.to_bits(), 2.0f64.to_bits()));
}

#[test]
fn the_state_of_the_tiles_is_named() {
    assert_eq!(performance_text(None), "fps --");
    assert_eq!(
        performance_text(Some(("60.0".to_string(), "16.7".to_string()))),
        "fps 60.0 (16.7 ms)"
    );
    let paused = tile_state_text(Some(DepthRenderMode::DistantTile), true, false, true);
    assert!(paused.contains("paused"));
    let key = TileKey { depth: -2, x: tile(3), y: tile(-4), lod: 5 };
    let name = texture_name(&key, 128, 9);
    assert!(name.contains("-2") && name.contains("3") && name.contains("-4"));
}

#[test]
fn numbers_are_written_in_decimal() {
    assert_eq!(natural(0), "0");
    assert_eq!(natural(u64::MAX), "18446744073709551615");
    assert_eq!(decimal(i64::MIN), "-9223372036854775808");
    assert_eq!(decimal(42), "42");
}

#[test]
fn synthetic_strokes_spread_over_the_depths() {
    assert_eq!(mix(0), 0);
    assert_eq!(mix(1), 0x5692_161d_100b_05e5);
    assert_ne!(mix(1), mix(2));
    assert_eq!(depth_band_count(2), 5);
    assert_eq!(clamp_depth_radius(-3), 0);
    assert_eq!(clamp_depth_radius(20_000), 10_000);
    let operation = synthetic_operation(7, 2);
    assert_eq!(operation.native_depth, 0);
    assert_eq!(operation.points.len(), 2);
    assert_eq!(f64::from_bits(operation.points[0].local_x), 0.1);
    assert_eq!(f64::from_bits(operation.points[1].local_y), 0.3);
    assert_ne!(operation.id, synthetic_operation(7, 2).id);
}

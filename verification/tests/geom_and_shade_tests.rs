use dvarcraft::Instance;
use dvarcraft::SPRITE_GRASS;
use dvarcraft::fill_instances;
use dvarcraft::geom::Pos;
use dvarcraft::geom::calculate_point;
use dvarcraft::geom::dist_sq;
use dvarcraft::geom::isqrt;
use dvarcraft::selection::Selection;
use dvarcraft::selection::inside_triangle;
use dvarcraft::shade::Backend;
use dvarcraft::shade::GlslVersion;
use dvarcraft::shade::SelectError;
use dvarcraft::shade::Source;
use dvarcraft::tiles::Tile;

fn p(x: i64, y: i64) -> Pos {
    Pos { x, y }
}

#[test]
fn squared_distance_is_exact() {
    assert_eq!(dist_sq(p(0, 0), p(3, 4)), 25);
    assert_eq!(dist_sq(p(-3, 4), p(0, 0)), 25);
    assert_eq!(dist_sq(p(7, 7), p(7, 7)), 0);
}

#[test]
fn integer_square_root_is_exact() {
    assert_eq!(isqrt(0), 0);
    assert_eq!(isqrt(1), 1);
    assert_eq!(isqrt(15), 3);
    assert_eq!(isqrt(16), 4);
    assert_eq!(isqrt(2_500_000_000), 50_000);
    assert_eq!(isqrt(7_999_999_999_999_999_999), 2_828_427_124);
}

#[test]
fn movement_step_is_proportional() {
    // A 3-4-5 line of length 5000: a 1000 step advances 600 east and
    // 800 north.
    assert_eq!(calculate_point(p(0, 0), p(3_000, 4_000), 1_000), p(600, 800));
    // A step at least as long as the line lands exactly on the target.
    assert_eq!(calculate_point(p(0, 0), p(3_000, 4_000), 5_000), p(3_000, 4_000));
    assert_eq!(calculate_point(p(0, 0), p(3_000, 4_000), 50_000), p(3_000, 4_000));
    // A zero step stays put.
    assert_eq!(calculate_point(p(5, 5), p(3_000, 4_000), 0), p(5, 5));
}

#[test]
fn triangle_test_matches_geometry() {
    let a = p(0, 0);
    let b = p(100_000, 20_000);
    let c = p(80_000, 120_000);
    assert!(inside_triangle(a, b, c, p(60_000, 46_000)));
    assert!(!inside_triangle(a, b, c, p(0, 100_000)));
    // A triangle with edges under the minimum size is degenerate.
    assert!(!inside_triangle(p(0, 0), p(1_000, 2_000), p(2_000, 1_000), p(500, 100)));
    // A triangle with an axis-aligned edge counts as degenerate too.
    assert!(!inside_triangle(p(0, 0), p(100_000, 0), p(100_000, 100_000), p(60_000, 30_000)));
}

#[test]
fn fresh_selection_selects_nothing() {
    let sel = Selection::new();
    assert!(!sel.pressed);
    assert!(sel.released);
    assert!(!sel.is_selected(p(0, 0)));
}

#[test]
fn selection_quad_covers_both_triangles() {
    // A slightly rotated diamond, as the isometric drag gesture draws.
    let mut sel = Selection::new();
    sel.coords = [
        p(-10_000, -60_000),
        p(60_000, -10_000),
        p(10_000, 60_000),
        p(-60_000, 10_000),
    ];
    assert!(sel.is_selected(p(0, 0)));
    assert!(sel.is_selected(p(32_000, 17_000)));
    assert!(sel.is_selected(p(-32_000, 17_000)));
    assert!(!sel.is_selected(p(90_000, 0)));
}

#[test]
fn empty_source_selects_nothing() {
    let s = Source::empty();
    let backend = Backend::Glsl(GlslVersion { major: 4, minor: 30 });
    assert_eq!(s.select(backend), Err(SelectError(backend)));
}

#[test]
fn select_picks_highest_supported_glsl() {
    let text: &[u8] = b"#version 330 core";
    let s = Source { glsl_330: text, ..Source::empty() };
    assert_eq!(s.select(Backend::Glsl(GlslVersion { major: 3, minor: 30 })), Ok(text));
    // 3.00 reaches the 330 slot's threshold of 300 as well.
    assert_eq!(s.select(Backend::Glsl(GlslVersion { major: 3, minor: 0 })), Ok(text));
    let low = Backend::Glsl(GlslVersion { major: 1, minor: 20 });
    assert_eq!(s.select(low), Err(SelectError(low)));
    let es = Backend::GlslEs(GlslVersion { major: 3, minor: 0 });
    assert_eq!(s.select(es), Err(SelectError(es)));
}

#[test]
fn select_prefers_the_stored_es_order() {
    let lo: &[u8] = b"es100";
    let hi: &[u8] = b"es300";
    let s = Source { glsl_es_100: lo, glsl_es_300: hi, ..Source::empty() };
    // The embedded cascade tries the lowest slot first.
    assert_eq!(s.select(Backend::GlslEs(GlslVersion { major: 3, minor: 0 })), Ok(lo));
}

#[test]
fn fill_instances_writes_only_its_window() {
    let blank = Instance { translate: p(0, 0), tex_id: 0, is_selected: false };
    let mut instances = vec![blank; 4];
    let mut t0 = Tile::new(p(1, 2), SPRITE_GRASS, None);
    t0.is_selected = true;
    let t1 = Tile::new(p(3, 4), SPRITE_GRASS, None);
    let tiles = vec![t0, t1];
    fill_instances(&mut instances, 1, &tiles);
    assert_eq!(instances[0], blank);
    assert_eq!(
        instances[1],
        Instance { translate: p(1, 2), tex_id: SPRITE_GRASS, is_selected: true }
    );
    assert_eq!(
        instances[2],
        Instance { translate: p(3, 4), tex_id: SPRITE_GRASS, is_selected: false }
    );
    assert_eq!(instances[3], blank);
}

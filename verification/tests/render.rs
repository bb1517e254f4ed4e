use leafish::render::atlas::{Atlas, Rect};
use leafish::render::glsl::Registry;

fn parts(rect: Option<Rect>) -> Option<(usize, usize, usize, usize)> {
    rect.map(|r| (r.x, r.y, r.width, r.height))
}

#[test]
fn atlas_takes_the_corner_and_splits_the_rest() {
    let mut atlas = Atlas::new(100, 100);
    assert_eq!(parts(atlas.add(30, 20)), Some((0, 0, 30, 20)));
    // Left over: below the request (0, 20, 30, 80) and beside it (30, 0, 70, 100).
    assert_eq!(parts(atlas.add(30, 80)), Some((0, 20, 30, 80)));
    assert_eq!(parts(atlas.add(70, 100)), Some((30, 0, 70, 100)));
    assert_eq!(parts(atlas.add(1, 1)), None);
}

#[test]
fn atlas_prefers_the_least_waste() {
    let mut atlas = Atlas::new(100, 100);
    assert_eq!(parts(atlas.add(40, 100)), Some((0, 0, 40, 100)));
    // One free rectangle is left: (40, 0, 60, 100).
    assert_eq!(parts(atlas.add(10, 10)), Some((40, 0, 10, 10)));
    // Free: (40, 10, 10, 90) in front, then (50, 0, 50, 100).
    assert_eq!(parts(atlas.add(10, 50)), Some((40, 10, 10, 50)));
    assert_eq!(parts(atlas.add(50, 50)), Some((50, 0, 50, 50)));
    assert_eq!(parts(atlas.add(200, 1)), None);
    assert_eq!(parts(atlas.add(1, 200)), None);
}

#[test]
fn atlas_of_no_size_has_no_room() {
    let mut atlas = Atlas::new(0, 0);
    assert_eq!(parts(atlas.add(1, 1)), None);
    let mut atlas = Atlas::new(usize::MAX, usize::MAX);
    assert_eq!(
        parts(atlas.add(usize::MAX, 1)),
        Some((0, 0, usize::MAX, 1))
    );
    assert_eq!(
        parts(atlas.add(usize::MAX, usize::MAX - 1)),
        Some((0, 1, usize::MAX, usize::MAX - 1))
    );
    assert_eq!(parts(atlas.add(1, 1)), None);
}

#[test]
fn registry_resolves_includes() {
    let mut registry = Registry::new("#version 150");
    registry.register("common", "\n  float one() { return 1.0; }\n\n");
    registry.register("main", "#include common \nvoid main() {\r\n}\n");
    assert!(registry.is_registered("main"));
    assert!(!registry.is_registered("other"));
    assert_eq!(
        registry.get("main").unwrap(),
        "#version 150\nfloat one() { return 1.0; }\nvoid main() {\n}\n"
    );
    assert_eq!(
        registry.get_define("main", "alpha").unwrap(),
        "#version 150\n#define alpha\nfloat one() { return 1.0; }\nvoid main() {\n}\n"
    );
    assert_eq!(
        registry.get("common").unwrap(),
        "#version 150\nfloat one() { return 1.0; }\n"
    );
}

#[test]
fn registry_adds_precision_for_embedded_targets() {
    let mut registry = Registry::new("#version 300 es");
    registry.register("empty", "");
    assert_eq!(
        registry.get("empty").unwrap(),
        "#version 300 es\nprecision mediump float;\nprecision mediump sampler2DArray;\n#define ES\n"
    );
}

#[test]
fn registry_has_nothing_for_missing_or_circular_shaders() {
    let mut registry = Registry::new("#version 150");
    assert_eq!(registry.get("main"), None);
    registry.register("main", "#include missing");
    assert_eq!(registry.get("main"), None);
    registry.register("a", "#include b");
    registry.register("b", "x\n#include a");
    assert_eq!(registry.get("a"), None);
    assert_eq!(registry.get_define("b", "d"), None);
    registry.register("missing", "ok");
    assert_eq!(registry.get("main").unwrap(), "#version 150\nok\n");
}

#[test]
fn registry_nests_as_deep_as_there_are_shaders() {
    let mut registry = Registry::new("v");
    registry.register("a", "#include b");
    registry.register("b", "#include c");
    registry.register("c", "leaf");
    assert_eq!(registry.get("a").unwrap(), "v\nleaf\n");
}

#[test]
fn registry_trims_unicode_whitespace_only() {
    let mut registry = Registry::new("v");
    registry.register("a", "\u{a0}\u{3000}\t body \u{85}\u{2028}\u{2029}\r\n");
    assert_eq!(registry.get("a").unwrap(), "v\nbody\n");
    registry.register("b", "\u{200b}body\u{feff}");
    assert_eq!(registry.get("b").unwrap(), "v\n\u{200b}body\u{feff}\n");
    registry.register("c", "   ");
    assert_eq!(registry.get("c").unwrap(), "v\n");
}

#[test]
fn registry_splits_lines_at_line_feeds() {
    let mut registry = Registry::new("v");
    registry.register("a", "one\r\r\ntwo\rthree\n\nfour\r\n\r\nfive");
    assert_eq!(
        registry.get("a").unwrap(),
        "v\none\r\ntwo\rthree\n\nfour\n\nfive\n"
    );
}

#[test]
fn registry_include_lines_need_the_exact_prefix() {
    let mut registry = Registry::new("v");
    registry.register("inc", "included");
    registry.register("a", "#include   inc  \n #include inc\n#includeinc\n#include inc");
    assert_eq!(
        registry.get("a").unwrap(),
        "v\nincluded\n #include inc\n#includeinc\nincluded\n"
    );
}

#[test]
fn atlas_never_hands_out_overlapping_rectangles() {
    let mut atlas = Atlas::new(64, 64);
    let mut taken: Vec<Rect> = Vec::new();
    let sizes = [
        (10, 10), (64, 3), (5, 40), (20, 20), (1, 1), (30, 7), (7, 30), (64, 64), (12, 12),
        (3, 3), (16, 16), (2, 50), (50, 2), (8, 8), (8, 8), (8, 8), (9, 9), (4, 4), (33, 33),
    ];
    for (width, height) in sizes {
        if let Some(rect) = atlas.add(width, height) {
            assert_eq!((rect.width, rect.height), (width, height));
            assert!(rect.x + rect.width <= 64 && rect.y + rect.height <= 64);
            for other in &taken {
                let apart = rect.x + rect.width <= other.x
                    || other.x + other.width <= rect.x
                    || rect.y + rect.height <= other.y
                    || other.y + other.height <= rect.y;
                assert!(apart);
            }
            taken.push(rect);
        }
    }
    assert!(taken.len() > 10);
}

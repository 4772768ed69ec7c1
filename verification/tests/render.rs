use steven::render::atlas::{Atlas, Rect};
use steven::render::glsl::Registry;

fn overlap(a: &Rect, b: &Rect) -> bool {
    a.x < b.x + b.width && b.x < a.x + a.width && a.y < b.y + b.height && b.y < a.y + a.height
}

#[test]
fn atlas_packs_without_overlap() {
    let mut a = Atlas::new(64, 64);
    let mut got = Vec::new();
    for (w, h) in [(16, 16), (32, 8), (8, 8), (64, 16), (16, 32), (30, 3)].iter() {
        if let Some(r) = a.add(*w, *h) {
            assert_eq!((r.width, r.height), (*w, *h));
            assert!(r.x + r.width <= 64 && r.y + r.height <= 64);
            got.push(r);
        }
    }
    for i in 0..got.len() {
        for j in 0..got.len() {
            if i != j {
                assert!(!overlap(&got[i], &got[j]));
            }
        }
    }
}

#[test]
fn atlas_first_fit_and_full() {
    let mut a = Atlas::new(16, 16);
    let r = a.add(16, 4).unwrap();
    assert_eq!((r.x, r.y), (0, 0));
    let r = a.add(8, 4).unwrap();
    assert_eq!((r.x, r.y), (0, 4));
    let r = a.add(8, 12).unwrap();
    assert_eq!((r.x, r.y), (8, 4));
    assert!(a.add(9, 1).is_none());
    assert!(a.add(8, 8).is_some());
    assert!(a.add(1, 1).is_none());
}

#[test]
fn atlas_cuts_the_chosen_space() {
    let mut a = Atlas::new(16, 16);
    let r = a.add(16, 4).unwrap();
    assert_eq!((r.x, r.y, r.width, r.height), (0, 0, 16, 4));
    let r = a.add(4, 4).unwrap();
    assert_eq!((r.x, r.y, r.width, r.height), (0, 4, 4, 4));
    let r = a.add(4, 8).unwrap();
    assert_eq!((r.x, r.y, r.width, r.height), (0, 8, 4, 8));
    assert!(a.add(13, 1).is_none());
    let r = a.add(12, 12).unwrap();
    assert_eq!((r.x, r.y, r.width, r.height), (4, 4, 12, 12));
}

#[test]
fn atlas_prefers_least_waste() {
    let mut a = Atlas::new(16, 16);
    let r = a.add(12, 4).unwrap();
    assert_eq!((r.x, r.y, r.width, r.height), (0, 0, 12, 4));
    let r = a.add(4, 10).unwrap();
    assert_eq!((r.x, r.y, r.width, r.height), (12, 0, 4, 10));
}

#[test]
fn shaders_expand_includes() {
    let mut reg = Registry::new("#version 150");
    reg.register("light", "  float light() { return 1.0; }  \n");
    reg.register("main", "#include light\r\nvoid main() {}\n");
    assert_eq!(reg.get("main"), "#version 150\nfloat light() { return 1.0; }\nvoid main() {}\n");
    assert_eq!(reg.get_define("light", "ALPHA"), "#version 150\n#define ALPHA\nfloat light() { return 1.0; }\n");
}

#[test]
fn shaders_es_header() {
    let mut reg = Registry::new("#version 300 es");
    reg.register("a", "x");
    assert_eq!(
        reg.get("a"),
        "#version 300 es\nprecision mediump float;\nprecision mediump sampler2DArray;\n#define ES\nx\n"
    );
}

use steven::chunk_builder::{build_cull_info, CullInfo};
use steven::shared::Direction;

fn idx(x: usize, y: usize, z: usize) -> usize {
    x | (z << 4) | (y << 8)
}

#[test]
fn cull_info_set_and_query() {
    let mut c = CullInfo::new();
    assert!(!c.is_visible(Direction::Up, Direction::Down));
    c.set_visible(Direction::Up, Direction::Down);
    assert!(c.is_visible(Direction::Up, Direction::Down));
    assert!(!c.is_visible(Direction::Down, Direction::Up));
    let all = CullInfo::all_vis();
    for a in Direction::all() {
        for b in Direction::all() {
            assert!(all.is_visible(a, b));
        }
    }
}

#[test]
fn open_section_sees_everything() {
    let cull = vec![false; 4096];
    let info = build_cull_info(&cull);
    for a in Direction::all() {
        for b in Direction::all() {
            assert!(info.is_visible(a, b));
        }
    }
}

#[test]
fn solid_section_sees_nothing() {
    let cull = vec![true; 4096];
    let info = build_cull_info(&cull);
    for a in Direction::all() {
        for b in Direction::all() {
            assert!(!info.is_visible(a, b));
        }
    }
}

#[test]
fn wall_splits_west_from_east() {
    let mut cull = vec![false; 4096];
    for y in 0..16 {
        for z in 0..16 {
            cull[idx(8, y, z)] = true;
        }
    }
    let info = build_cull_info(&cull);
    assert!(!info.is_visible(Direction::West, Direction::East));
    assert!(!info.is_visible(Direction::East, Direction::West));
    assert!(info.is_visible(Direction::West, Direction::West));
    assert!(info.is_visible(Direction::West, Direction::Up));
    assert!(info.is_visible(Direction::Up, Direction::West));
    assert!(info.is_visible(Direction::East, Direction::North));
    assert!(info.is_visible(Direction::Up, Direction::Down));
}

#[test]
fn enclosed_pocket_touches_no_face() {
    let mut cull = vec![true; 4096];
    cull[idx(5, 5, 5)] = false;
    cull[idx(6, 5, 5)] = false;
    let info = build_cull_info(&cull);
    for a in Direction::all() {
        for b in Direction::all() {
            assert!(!info.is_visible(a, b));
        }
    }
}

#[test]
fn visibility_is_symmetric() {
    let mut cull = vec![false; 4096];
    for x in 0..16 {
        for z in 0..16 {
            cull[idx(x, 3, z)] = true;
        }
    }
    cull[idx(0, 3, 0)] = false;
    let info = build_cull_info(&cull);
    for a in Direction::all() {
        for b in Direction::all() {
            assert_eq!(info.is_visible(a, b), info.is_visible(b, a));
        }
    }
    assert!(info.is_visible(Direction::Up, Direction::Down));
}

use steven::bit::map::BitMap;
use steven::bit::set::BitSet;

#[test]
fn test_map() {
    let mut map = BitMap::new(4096, 4);
    for i in 0..4096 {
        for j in 0..16 {
            map.set(i, j);
            if map.get(i) != j {
                panic!("Fail");
            }
        }
    }
}

#[test]
fn test_set() {
    let mut set = BitSet::new(200);
    for i in 0..200 {
        if i % 3 == 0 {
            set.set(i, true)
        }
    }
    for i in 0..200 {
        if set.get(i) != (i % 3 == 0) {
            panic!("Fail")
        }
    }
}

#[test]
fn map_set_keeps_neighbours() {
    let mut map = BitMap::new(64, 5);
    map.set(3, 31);
    map.set(4, 17);
    map.set(2, 9);
    assert_eq!(map.get(3), 31);
    assert_eq!(map.get(4), 17);
    assert_eq!(map.get(2), 9);
    assert_eq!(map.get(5), 0);
    map.set(3, 0);
    assert_eq!(map.get(3), 0);
    assert_eq!(map.get(4), 17);
    assert_eq!(map.get(2), 9);
}

#[test]
fn map_value_too_wide_spills_into_neighbour() {
    let mut map = BitMap::new(16, 4);
    map.set(0, 0x1F);
    assert_eq!(map.get(0), 0xF);
    assert_eq!(map.get(1), 1);
}

#[test]
fn set_clear_and_capacity() {
    let mut set = BitSet::new(1);
    assert_eq!(set.capacity(), 64);
    set.set(63, true);
    set.set(5, true);
    assert!(set.get(63));
    set.set(63, false);
    assert!(!set.get(63));
    assert!(set.get(5));
    set.resize(200);
    assert!(set.capacity() >= 200);
    assert!(set.get(5));
    assert!(!set.get(150));
}

use steven::ecs::{Filter, Key};
use steven::entity::{Gravity, PlayerMovement};
use steven::format::{convert_legacy, Color, Component, Modifier, TextComponent};
use steven::gl::ClearFlags;
use steven::hash::FNVHash;
use steven::model::liquid::average_liquid_level;
use steven::model::rotation::rotate_direction;
use steven::shared::Direction;
use steven::protocol::frame::{frame_packet, unframe_packet};
use steven::protocol::mojang::{join_server_hash, server_hash, twos_compliment, Profile};
use steven::render::model::CollectionKey;
use steven::server::Gamemode;

#[test]
fn fnv_known_values() {
    let mut h = FNVHash::default();
    assert_eq!(h.finish(), 0xcbf29ce484222325);
    h.write(b"a");
    assert_eq!(h.finish(), 0xaf63bd4c8601b7be);
    let mut h = FNVHash::default();
    h.write(b"foo");
    h.write(b"bar");
    assert_eq!(h.finish(), 0x340d8765a4dda9c2);
}

#[test]
fn filter_collects_components() {
    let f = Filter::new();
    let f = f.with(Key::<u8>::new(3)).with(Key::<u16>::new(100)).with(Key::<u8>::new(3));
    let _ = f;
}

#[test]
fn plain_components() {
    let g = Gravity::new();
    assert!(!g.on_ground);
    let t = TextComponent::new("hi");
    assert_eq!(t.text, "hi");
    assert!(t.modifier.color.is_none() && t.modifier.extra.is_none());
    assert_eq!(ClearFlags::Color.internal(), 0x4000);
    assert_eq!(ClearFlags::Depth.internal(), 0x100);
    assert_eq!(ClearFlags::Internal(7).internal(), 7);
    assert_eq!((ClearFlags::Color | ClearFlags::Depth).internal(), 0x4100);
    assert_eq!((ClearFlags::Internal(3) | ClearFlags::Internal(6)).internal(), 7);
    assert!(CollectionKey::default_collection() != CollectionKey::sun());
}

fn texts(c: &Component) -> Vec<(String, Option<Color>, Option<bool>)> {
    let Component::Text(t) = c;
    let mut out = vec![(t.text.clone(), t.modifier.color, t.modifier.bold)];
    if let Some(extra) = &t.modifier.extra {
        for e in extra {
            out.extend(texts(e));
        }
    }
    out
}

#[test]
fn legacy_codes_become_pieces() {
    let mut c = Component::Text(TextComponent::new("§aHello §lWorld"));
    convert_legacy(&mut c);
    assert_eq!(
        texts(&c),
        vec![
            ("".to_owned(), None, None),
            ("".to_owned(), None, None),
            ("Hello ".to_owned(), Some(Color::Green), None),
            ("World".to_owned(), Some(Color::Green), Some(true)),
        ]
    );
}

#[test]
fn legacy_conversion_keeps_visible_text_and_settles() {
    let mut inner = TextComponent::new("§4x§ky");
    inner.modifier.italic = Some(true);
    let mut outer = TextComponent::new("§aHello §lWorld");
    outer.modifier.extra = Some(vec![Component::Text(inner)]);
    let mut c = Component::Text(outer);
    assert_eq!(c.to_string(), "§aHello §lWorld§4x§ky");
    convert_legacy(&mut c);
    assert_eq!(c.to_string(), "Hello Worldxy");
    let once = texts(&c);
    convert_legacy(&mut c);
    assert_eq!(texts(&c), once);
    assert_eq!(c.to_string(), "Hello Worldxy");
}

#[test]
fn legacy_reset_keeps_style_and_trailing_sign_stays() {
    let mut c = Component::Text(TextComponent::new("a§Lb§rc§"));
    convert_legacy(&mut c);
    assert_eq!(
        texts(&c),
        vec![
            ("".to_owned(), None, None),
            ("a".to_owned(), None, None),
            ("b".to_owned(), None, Some(true)),
            ("c§".to_owned(), None, Some(true)),
        ]
    );
}

#[test]
fn legacy_converts_following_components_too() {
    let mut inner = TextComponent::new("§cred");
    inner.modifier.bold = Some(false);
    let mut outer = TextComponent::new("plain");
    outer.modifier.extra = Some(vec![Component::Text(inner)]);
    let mut c = Component::Text(outer);
    convert_legacy(&mut c);
    assert_eq!(
        texts(&c),
        vec![
            ("plain".to_owned(), None, None),
            ("".to_owned(), None, Some(false)),
            ("".to_owned(), None, None),
            ("red".to_owned(), Some(Color::Red), None),
        ]
    );
    let m = Modifier::default();
    assert!(m.extra.is_none());
}

#[test]
fn profile_completeness() {
    let mut p = Profile { username: "Steve".to_owned(), id: "1".to_owned(), access_token: "t".to_owned() };
    assert!(p.is_complete());
    p.access_token = String::new();
    assert!(!p.is_complete());
}

#[test]
fn twos_complement_negates() {
    let mut v = vec![0x00, 0x01];
    twos_compliment(&mut v);
    assert_eq!(v, vec![0xff, 0xff]);
    let mut v = vec![0x00, 0x00];
    twos_compliment(&mut v);
    assert_eq!(v, vec![0x00, 0x00]);
    let mut v = vec![0x12, 0x34, 0x00];
    twos_compliment(&mut v);
    assert_eq!(v, vec![0xed, 0xcc, 0x00]);
    twos_compliment(&mut v);
    assert_eq!(v, vec![0x12, 0x34, 0x00]);
}

#[test]
fn server_hashes_match_known_digests() {
    let notch = vec![78, 209, 244, 107, 190, 4, 188, 117, 107, 203, 23, 192, 199, 206, 62, 70, 50, 240, 106, 72];
    assert_eq!(server_hash(notch), "4ed1f46bbe04bc756bcb17c0c7ce3e4632f06a48");
    let jeb = vec![131, 98, 164, 255, 187, 62, 207, 239, 101, 162, 132, 160, 74, 60, 232, 63, 212, 177, 215, 63];
    assert_eq!(server_hash(jeb), "-7c9d5b0044c130109a5d7b5fb5c317c02b4e28c1");
    let simon = vec![8, 142, 22, 161, 1, 146, 119, 177, 93, 88, 250, 240, 84, 30, 17, 145, 14, 183, 86, 246];
    assert_eq!(server_hash(simon), "88e16a1019277b15d58faf0541e11910eb756f6");
}

#[test]
fn frames_without_compression() {
    let body = vec![0x00, 0x2f, 0x01];
    let out = frame_packet(&body, -1).unwrap();
    assert_eq!(out, vec![0x03, 0x00, 0x2f, 0x01]);
    assert_eq!(unframe_packet(&out[1..], -1).unwrap(), body);
}

#[test]
fn frames_below_threshold() {
    let body = vec![0x05, 0x06];
    let out = frame_packet(&body, 256).unwrap();
    assert_eq!(out, vec![0x03, 0x00, 0x05, 0x06]);
    assert_eq!(unframe_packet(&out[1..], 256).unwrap(), body);
}

#[test]
fn frames_compressed() {
    let body = vec![1, 2, 3];
    let out = frame_packet(&body, 0).unwrap();
    assert_eq!(out[1], 0x03);
    assert_eq!(out[0] as usize, out.len() - 1);
    assert!(out.len() > 5);
    assert_eq!(unframe_packet(&out[1..], 0).unwrap(), body);
    assert!(unframe_packet(&[0x03, 0xff, 0xff], 0).is_err());
    assert!(unframe_packet(&[0x80], 0).is_err());
}

#[test]
fn liquid_corner_heights() {
    assert_eq!(average_liquid_level(&[None, Some(3), None, None], &[Some(0), None, None, None]), 8);
    assert_eq!(average_liquid_level(&[None; 4], &[Some(0), Some(3), None, None]), 7);
    assert_eq!(average_liquid_level(&[None; 4], &[Some(5), Some(9), None, None]), 6);
    assert_eq!(average_liquid_level(&[None; 4], &[None; 4]), 0);
}

#[test]
fn double_jump_toggles_flight() {
    let mut m = PlayerMovement::new();
    m.pressed_keys = vec![false; 8];
    m.pressed_keys[7] = true;
    m.update_flight(Gamemode::Creative, 1000, 300);
    assert_eq!(m.when_last_jump_pressed, Some(1000));
    m.pressed_keys[7] = false;
    m.update_flight(Gamemode::Creative, 1100, 300);
    assert_eq!(m.when_last_jump_released, Some(1100));
    assert_eq!(m.when_last_jump_pressed, None);
    m.pressed_keys[7] = true;
    m.update_flight(Gamemode::Creative, 1200, 300);
    assert!(m.want_to_fly && m.flying);
    m.pressed_keys[7] = false;
    m.update_flight(Gamemode::Survival, 1300, 300);
    m.pressed_keys[7] = true;
    m.update_flight(Gamemode::Survival, 2000, 300);
    assert!(m.want_to_fly);
    let mut s = PlayerMovement::new();
    s.update_flight(Gamemode::Spectator, 5, 300);
    assert!(s.flying);
}

#[test]
fn rotate_direction_turns_round_the_cycle() {
    let rots = [Direction::North, Direction::East, Direction::South, Direction::West];
    let invalid = [Direction::Up, Direction::Down];
    assert_eq!(rotate_direction(Direction::North, 1, &rots, &invalid), Direction::East);
    assert_eq!(rotate_direction(Direction::West, 1, &rots, &invalid), Direction::North);
    assert_eq!(rotate_direction(Direction::South, 3, &rots, &invalid), Direction::East);
    assert_eq!(rotate_direction(Direction::East, 4, &rots, &invalid), Direction::East);
    assert_eq!(rotate_direction(Direction::Up, 2, &rots, &invalid), Direction::Up);
}

#[test]
fn rotate_direction_missing_value_starts_at_first_slot() {
    let rots = [Direction::North, Direction::Down, Direction::South, Direction::Up];
    let invalid = [Direction::East];
    assert_eq!(rotate_direction(Direction::West, 1, &rots, &invalid), Direction::Down);
    assert_eq!(rotate_direction(Direction::Up, 1, &rots, &invalid), Direction::North);
}

#[test]
fn join_server_hash_of_known_names() {
    assert_eq!(join_server_hash("Notch", &[], &[]), "4ed1f46bbe04bc756bcb17c0c7ce3e4632f06a48");
    assert_eq!(join_server_hash("jeb_", &[], &[]), "-7c9d5b0044c130109a5d7b5fb5c317c02b4e28c1");
    assert_eq!(join_server_hash("sim", b"o", b"n"), "88e16a1019277b15d58faf0541e11910eb756f6");
}

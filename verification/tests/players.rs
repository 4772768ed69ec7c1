use steven::json::JsonValue;
use steven::protocol::packet::{PlayerDetail, PlayerProperty};
use steven::protocol::uuid::UUID;
use steven::protocol::varint::VarInt;
use steven::server::players::{skin_url, texture_values, PlayerList};
use steven::server::Gamemode;

fn uuid(n: u8) -> UUID {
    UUID::from_str(&format!("{:08x}-0000-0000-0000-000000000000", n))
}

fn add(id: u8, name: &str, gamemode: i32, ping: i32) -> PlayerDetail {
    PlayerDetail::Add {
        uuid: uuid(id),
        name: name.to_string(),
        properties: vec![],
        gamemode: VarInt(gamemode),
        ping: VarInt(ping),
        display: None,
    }
}

fn obj(members: Vec<(&str, JsonValue)>) -> JsonValue {
    JsonValue::Object(members.into_iter().map(|(k, v)| (k.to_owned(), v)).collect())
}

#[test]
fn player_list_follows_updates() {
    let mut list = PlayerList::new();
    list.on_player_info(
        vec![add(1, "alice", 1, 20), add(2, "bob", 0, 50)],
        vec![Some("http://textures/alice".to_string()), None],
    );
    let alice = list.get(&uuid(1)).unwrap();
    assert_eq!(alice.name(), "alice");
    assert_eq!(alice.gamemode(), Gamemode::Creative);
    assert_eq!(alice.ping(), 20);
    assert_eq!(alice.skin_url(), Some("http://textures/alice"));
    list.apply(PlayerDetail::UpdateLatency { uuid: uuid(2), ping: VarInt(75) }, None);
    list.apply(PlayerDetail::UpdateGamemode { uuid: uuid(2), gamemode: VarInt(3) }, None);
    list.apply(PlayerDetail::UpdateDisplayName { uuid: uuid(2), display: Some("\"Bob\"".to_string()) }, None);
    let bob = list.get(&uuid(2)).unwrap();
    assert_eq!(bob.ping(), 75);
    assert_eq!(bob.gamemode(), Gamemode::Spectator);
    assert_eq!(bob.display_name(), Some("\"Bob\""));
    list.apply(add(1, "alice2", 2, 30), None);
    let alice = list.get(&uuid(1)).unwrap();
    assert_eq!(alice.name(), "alice2");
    assert_eq!(alice.skin_url(), Some("http://textures/alice"));
    list.apply(PlayerDetail::Remove { uuid: uuid(1) }, None);
    assert!(list.get(&uuid(1)).is_none());
    list.apply(PlayerDetail::UpdateLatency { uuid: uuid(1), ping: VarInt(5) }, None);
    assert!(list.get(&uuid(1)).is_none());
    assert!(list.get(&uuid(2)).is_some());
}

#[test]
fn skins_come_from_textures_properties() {
    let props = vec![
        PlayerProperty { name: "textures".to_string(), value: "AAA".to_string(), signature: None },
        PlayerProperty { name: "other".to_string(), value: "BBB".to_string(), signature: None },
        PlayerProperty { name: "textures".to_string(), value: "CCC".to_string(), signature: None },
    ];
    assert_eq!(texture_values(&props), vec!["AAA".to_string(), "CCC".to_string()]);
    let blob = |url: &str| {
        obj(vec![("textures", obj(vec![("SKIN", obj(vec![("url", JsonValue::String(url.to_string()))]))]))])
    };
    assert_eq!(skin_url(&[Some(blob("a")), None, Some(blob("b"))]), Some("b".to_string()));
    assert_eq!(skin_url(&[Some(blob("a")), Some(obj(vec![]))]), Some("a".to_string()));
    assert_eq!(skin_url(&[None]), None);
}

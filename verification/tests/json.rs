use steven::format::{Color, Component};
use steven::json::JsonValue;
use steven::protocol::mojang::Profile;
use steven::screen::{delete_server, empty_servers, is_servers_readable, save_servers, server_count, server_entries};
use steven::protocol::{Error, Status};

fn s(v: &str) -> JsonValue {
    JsonValue::String(v.to_owned())
}

fn obj(members: Vec<(&str, JsonValue)>) -> JsonValue {
    JsonValue::Object(members.into_iter().map(|(k, v)| (k.to_owned(), v)).collect())
}

#[test]
fn string_is_plain_text() {
    let Component::Text(t) = Component::from_value(&s("hi"));
    assert_eq!(t.text, "hi");
    assert!(t.modifier.extra.is_none() && t.modifier.color.is_none());
}

#[test]
fn object_with_style_and_extra() {
    let v = obj(vec![
        ("text", s("a")),
        ("bold", JsonValue::Bool(true)),
        ("color", s("red")),
        ("extra", JsonValue::Array(vec![s("b"), obj(vec![("text", s("c")), ("italic", JsonValue::Bool(true))])])),
    ]);
    let Component::Text(t) = Component::from_value(&v);
    assert_eq!(t.text, "a");
    assert_eq!(t.modifier.bold, Some(true));
    assert_eq!(t.modifier.color, Some(Color::Red));
    let extra = t.modifier.extra.unwrap();
    assert_eq!(extra.len(), 2);
    let Component::Text(b) = &extra[0];
    assert_eq!(b.text, "b");
    let Component::Text(c) = &extra[1];
    assert_eq!(c.text, "c");
    assert_eq!(c.modifier.italic, Some(true));
}

#[test]
fn unknown_objects_show_unhandled() {
    let Component::Text(t) = Component::from_value(&obj(vec![("foo", JsonValue::Number(Some(1)))]));
    assert_eq!(t.text, "UNHANDLED");
    assert_eq!(t.modifier.color, Some(Color::RGB(255, 0, 0)));
    let Component::Text(t) = Component::from_value(&obj(vec![("text", JsonValue::Number(Some(5)))]));
    assert_eq!(t.text, "");
    let Component::Text(t) = Component::from_value(&obj(vec![("text", s("x")), ("bold", s("yes"))]));
    assert_eq!(t.modifier.bold, None);
}

fn status_json(with_players: bool) -> JsonValue {
    let mut members = vec![
        ("version", obj(vec![("name", s("1.9.2")), ("protocol", JsonValue::Number(Some(109)))])),
        ("description", s("A Minecraft Server")),
        ("favicon", s("data:image/png;base64,AAAA")),
    ];
    if with_players {
        members.push(("players", obj(vec![("max", JsonValue::Number(Some(20))), ("online", JsonValue::Number(Some(3)))])));
    }
    obj(members)
}

#[test]
fn status_answer_read() {
    let st = Status::from_json(&status_json(true)).ok().unwrap();
    assert_eq!(st.version.name, "1.9.2");
    assert_eq!(st.version.protocol, 109);
    assert_eq!(st.players.max, 20);
    assert_eq!(st.players.online, 3);
    assert!(st.players.sample.is_empty());
    let Component::Text(d) = &st.description;
    assert_eq!(d.text, "A Minecraft Server");
    assert_eq!(st.favicon, Some("data:image/png;base64,AAAA".to_owned()));
}

#[test]
fn status_answer_without_players_is_invalid() {
    match Status::from_json(&status_json(false)) {
        Err(Error::Message(m)) => assert_eq!(m, "Invalid status"),
        _ => panic!("expected an invalid status"),
    }
}

fn member<'a>(v: &'a JsonValue, key: &str) -> &'a JsonValue {
    match v {
        JsonValue::Object(m) => &m.iter().find(|(k, _)| k == key).unwrap().1,
        _ => panic!("not an object"),
    }
}

fn text(v: &JsonValue) -> &str {
    match v {
        JsonValue::String(s) => s,
        _ => panic!("not a string"),
    }
}

#[test]
fn login_request_names_user_password_token_and_agent() {
    let v = Profile::login_request("alice", "hunter2", "tok");
    assert_eq!(text(member(&v, "username")), "alice");
    assert_eq!(text(member(&v, "password")), "hunter2");
    assert_eq!(text(member(&v, "clientToken")), "tok");
    let agent = member(&v, "agent");
    assert_eq!(text(member(agent, "name")), "Minecraft");
    assert!(matches!(member(agent, "version"), JsonValue::Number(Some(1))));
}

#[test]
fn refresh_and_join_requests_carry_the_token() {
    let p = Profile { username: "alice".to_string(), id: "abc".to_string(), access_token: "secret".to_string() };
    let r = p.refresh_request("tok");
    assert_eq!(text(member(&r, "accessToken")), "secret");
    assert_eq!(text(member(&r, "clientToken")), "tok");
    let j = p.join_request("-7c9d5b0044c130109a5f7b5fb5c317c02b4e28");
    assert_eq!(text(member(&j, "selectedProfile")), "abc");
    assert_eq!(text(member(&j, "serverId")), "-7c9d5b0044c130109a5f7b5fb5c317c02b4e28");
}

#[test]
fn auth_answer_gives_the_selected_profile() {
    let answer = obj(vec![
        ("accessToken", s("new-token")),
        ("selectedProfile", obj(vec![("name", s("alice")), ("id", s("abc"))])),
    ]);
    let p = Profile::from_auth_answer(&answer).ok().unwrap();
    assert_eq!(p.username, "alice");
    assert_eq!(p.id, "abc");
    assert_eq!(p.access_token, "new-token");
}

#[test]
fn auth_answer_error_is_reported_with_its_message() {
    let answer = obj(vec![
        ("error", s("ForbiddenOperationException")),
        ("errorMessage", s("Invalid credentials.")),
    ]);
    match Profile::from_auth_answer(&answer) {
        Err(Error::Message(m)) => assert_eq!(m, "ForbiddenOperationException: Invalid credentials."),
        _ => panic!("expected an error"),
    }
}

#[test]
fn servers_are_added_edited_and_deleted() {
    let doc = empty_servers();
    assert_eq!(server_count(&doc), Some(0));
    let doc = save_servers(doc, None, "Home", "localhost");
    let doc = save_servers(doc, None, "Hypixel", "mc.hypixel.net");
    assert!(is_servers_readable(&doc));
    assert_eq!(
        server_entries(&doc),
        vec![
            ("Home".to_string(), "localhost".to_string()),
            ("Hypixel".to_string(), "mc.hypixel.net".to_string()),
        ]
    );
    let doc = save_servers(doc, Some(0), "Home", "127.0.0.1:25566");
    assert_eq!(server_entries(&doc)[0], ("Home".to_string(), "127.0.0.1:25566".to_string()));
    let doc = delete_server(doc, 0);
    assert_eq!(server_entries(&doc), vec![("Hypixel".to_string(), "mc.hypixel.net".to_string())]);
}

#[test]
fn other_members_of_the_server_file_are_kept() {
    let doc = obj(vec![("version", s("1")), ("servers", JsonValue::Array(vec![]))]);
    let doc = save_servers(doc, None, "a", "b");
    assert_eq!(text(member(&doc, "version")), "1");
    assert_eq!(server_count(&doc), Some(1));
    let bad = obj(vec![("servers", JsonValue::Array(vec![obj(vec![("name", s("x"))])]))]);
    assert!(!is_servers_readable(&bad));
    assert_eq!(server_count(&obj(vec![])), None);
}

#[test]
fn status_text_is_parsed() {
    let text = r#"{"version":{"name":"1.10.2","protocol":210},"players":{"max":20,"online":3},"description":{"text":"hello","color":"red"},"favicon":"data"}"#;
    let st = Status::parse(text).ok().unwrap();
    assert_eq!(st.version.name, "1.10.2");
    assert_eq!(st.version.protocol, 210);
    assert_eq!(st.players.max, 20);
    assert_eq!(st.players.online, 3);
    assert_eq!(st.favicon, Some("data".to_owned()));
    assert_eq!(st.description.to_string(), "hello");
    match Status::parse("{not json") {
        Err(Error::Message(m)) => assert_eq!(m, "Json parse error"),
        _ => panic!("expected a parse error"),
    }
    match Status::parse(r#"{"version":{"name":"x"}}"#) {
        Err(Error::Message(m)) => assert_eq!(m, "Invalid status"),
        _ => panic!("expected an invalid status"),
    }
    assert!(Status::parse_checked("{\"description\":{\"text\":\"a\",\"color\":\"#a\u{e9}bcd\"}}").is_none());
    assert!(Status::parse_checked(text).unwrap().is_ok());
}

#[test]
fn chat_text_is_read_from_bytes() {
    let json = r#"{"text":"hi","bold":true,"extra":[{"text":" there","color":"green"}]}"#;
    let mut buf = vec![json.len() as u8];
    buf.extend_from_slice(json.as_bytes());
    buf.push(7);
    let (c, end) = Component::read_from(&buf, 0).ok().unwrap();
    assert_eq!(end, json.len() + 1);
    assert_eq!(c.to_string(), "hi there");
    let (c2, _) = Component::read_checked(&buf, 0).unwrap().ok().unwrap();
    assert_eq!(c2.to_string(), "hi there");
    assert!(Component::read_from(&[0x80], 0).is_err());
    let bad = b"\x04{x:1";
    assert!(Component::read_checked(bad, 0).is_none());
    assert!(Component::parse_checked("{\"text\":\"a\",\"color\":\"#a\u{e9}bcd\"}").is_none());
    assert_eq!(Component::parse_checked(r#"{"text":"ok"}"#).unwrap().to_string(), "ok");
    assert_eq!(Component::from_json_text(r#"{"text":"plain"}"#).to_string(), "plain");
}

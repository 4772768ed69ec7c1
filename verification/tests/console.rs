use steven::auth;
use steven::console::{int_to_string, is_i64_str, parse_i64, CVar, Console, LineOutcome, LogLevel, VarState, Var};
use steven::settings::{self, Stevenkey};

#[test]
fn int_text_both_ways() {
    assert_eq!(int_to_string(0), "0");
    assert_eq!(int_to_string(42), "42");
    assert_eq!(int_to_string(-7), "-7");
    assert_eq!(int_to_string(i64::MIN), "-9223372036854775808");
    assert_eq!(int_to_string(i64::MAX), "9223372036854775807");
    assert_eq!(parse_i64("42"), 42);
    assert_eq!(parse_i64("+5"), 5);
    assert_eq!(parse_i64("-0012"), -12);
    assert_eq!(parse_i64("-9223372036854775808"), i64::MIN);
}

#[test]
fn settings_defaults_and_changes() {
    let mut console = Console::new();
    settings::register_vars(&mut console);
    auth::register_vars(&mut console);
    assert_eq!(console.get(settings::r_max_fps()), 60);
    assert_eq!(console.get(settings::r_fov()), 90);
    assert_eq!(console.get(settings::r_vsync()), true);
    assert_eq!(console.get(settings::cl_keybind_jump()), 32);
    assert_eq!(console.get(auth::cl_username()), "");
    console.set(&settings::r_fov(), 70);
    assert_eq!(console.get(settings::r_fov()), 70);
    assert_eq!(console.get(settings::r_max_fps()), 60);
    console.set(&auth::cl_username(), "Steve".to_owned());
    assert_eq!(console.get(auth::cl_username()), "Steve");
}

#[test]
fn keybindings_find_actions() {
    let mut console = Console::new();
    settings::register_vars(&mut console);
    assert!(Stevenkey::get_by_keycode(119, &console) == Some(Stevenkey::Forward));
    assert!(Stevenkey::get_by_keycode(32, &console) == Some(Stevenkey::Jump));
    assert!(Stevenkey::get_by_keycode(1, &console) == None);
    console.set(&settings::cl_keybind_jump(), 119);
    assert!(Stevenkey::get_by_keycode(119, &console) == Some(Stevenkey::Forward));
    assert_eq!(Stevenkey::values().len(), 8);
    assert_eq!(Stevenkey::Sneak.get_cvar().name, "cl_keybind_sneak");
}

#[test]
fn values_saved_and_read_back() {
    let iv: CVar<i64> = settings::r_fov();
    assert_eq!(iv.serialize(&VarState::Int(-15)), "-15");
    match iv.deserialize("123") {
        VarState::Int(v) => assert_eq!(v, 123),
        _ => panic!("wrong kind"),
    }
    let bv: CVar<bool> = settings::r_vsync();
    assert_eq!(bv.serialize(&VarState::Bool(false)), "false");
    match bv.deserialize("true") {
        VarState::Bool(b) => assert!(b),
        _ => panic!("wrong kind"),
    }
    let sv: CVar<String> = auth::cl_uuid();
    assert_eq!(sv.serialize(&VarState::Str("abc".to_owned())), "\"abc\"");
    match sv.deserialize("\"xyz\"") {
        VarState::Str(s) => assert_eq!(s, "xyz"),
        _ => panic!("wrong kind"),
    }
    assert!(sv.can_serialize());
    assert!(sv.description().starts_with("cl_uuid"));
}

#[test]
fn config_text_lists_saved_vars() {
    let mut console = Console::new();
    console.register(settings::r_vsync());
    console.register(auth::cl_username());
    assert_eq!(
        console.config_text(),
        "# Toggle to enable/disable vsync\nr_vsync true\n\n\
         # cl_username is the username that the client will use to connect\n# to servers.\ncl_username \"\"\n\n"
    );
}

#[test]
fn config_lines_load() {
    let mut console = Console::new();
    settings::register_vars(&mut console);
    auth::register_vars(&mut console);
    assert!(console.can_load_line("r_fov 70"));
    assert_eq!(console.load_line("r_fov 70"), LineOutcome::Applied);
    assert_eq!(console.get(settings::r_fov()), 70);
    assert_eq!(console.load_line("# a comment"), LineOutcome::Skipped);
    assert_eq!(console.load_line(""), LineOutcome::Skipped);
    assert_eq!(console.load_line("nope 1"), LineOutcome::Missing);
    assert_eq!(console.load_line("r_vsync false"), LineOutcome::Applied);
    assert_eq!(console.get(settings::r_vsync()), false);
    assert_eq!(console.load_line("cl_username \"Alex\""), LineOutcome::Applied);
    assert_eq!(console.get(auth::cl_username()), "Alex");
    assert!(!console.can_load_line("r_fov abc"));
    assert!(!console.can_load_line("r_fov"));
    assert!(!console.can_load_line("r_vsync yes"));
    assert!(console.can_load_line("unknown whatever"));
}

#[test]
fn i64_text_check() {
    assert!(is_i64_str("0"));
    assert!(is_i64_str("-9223372036854775808"));
    assert!(!is_i64_str("9223372036854775808"));
    assert!(is_i64_str("9223372036854775807"));
    assert!(!is_i64_str("-"));
    assert!(!is_i64_str(""));
    assert!(!is_i64_str("12a"));
    assert!(!is_i64_str("99999999999999999999999"));
}

#[test]
fn log_lines_name_the_source_file() {
    let mut console = Console::new();
    let line = console.log("steven::render", "C:\\code\\steven\\src/render/mod.rs", 42, LogLevel::Info, "hello");
    assert_eq!(line, Some("[render/mod.rs:42][INFO] hello".to_owned()));
    let line = console.log("steven::main", "main.rs", 7, LogLevel::Error, "boom");
    assert_eq!(line, Some("[main.rs:7][ERROR] boom".to_owned()));
    assert_eq!(console.log("hyper::client", "src/client.rs", 1, LogLevel::Debug, "x"), None);
    assert_eq!(console.log("mime::parse", "src/a.rs", 1, LogLevel::Debug, "x"), None);
}

#[test]
fn console_toggles_open_and_closed() {
    let mut c = Console::new();
    assert!(!c.is_active());
    c.toggle();
    assert!(c.is_active());
    c.toggle();
    assert!(!c.is_active());
}

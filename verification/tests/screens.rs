use steven::screen::ScreenSystem;

#[test]
fn screens_are_set_up_shown_and_torn_down_in_turn() {
    let mut sys: ScreenSystem<&str> = ScreenSystem::new();
    let plan = sys.begin_tick();
    assert!(plan.removed.is_empty() && plan.deactivate.is_empty());
    assert!(!plan.init_current && !plan.activate_current);

    sys.add_screen("login");
    let plan = sys.begin_tick();
    assert!(plan.init_current && plan.activate_current);
    assert!(plan.deactivate.is_empty());
    let plan = sys.begin_tick();
    assert!(!plan.init_current && !plan.activate_current);

    sys.add_screen("settings");
    let plan = sys.begin_tick();
    assert_eq!(plan.deactivate, vec![0]);
    assert!(plan.init_current && plan.activate_current);
    assert_eq!(sys.current(), Some(&"settings"));

    sys.pop_screen();
    let plan = sys.begin_tick();
    assert_eq!(plan.removed, vec![("settings", true, true)]);
    assert!(!plan.init_current && plan.activate_current);
    assert_eq!(sys.current(), Some(&"login"));

    sys.replace_screen("server list");
    assert_eq!(sys.current(), Some(&"server list"));
    assert_eq!(*sys.screen_at(0), "server list");
    let plan = sys.begin_tick();
    assert_eq!(plan.removed, vec![("login", true, true)]);
    assert!(plan.init_current && plan.activate_current);

    sys.pop_screen();
    sys.pop_screen();
    assert_eq!(sys.current(), None);
    let plan = sys.begin_tick();
    assert_eq!(plan.removed, vec![("server list", true, true)]);
}

use solidoak::keys::{Action, KeySettings, Shortcuts};

fn none_keys() -> KeySettings {
    KeySettings {
        new_project: None,
        import: None,
        rename: None,
        remove: None,
        run: None,
        build: None,
        test: None,
        clean: None,
        stop: None,
        save: None,
        undo: None,
        redo: None,
        font_dec: None,
        font_inc: None,
        close: None,
    }
}

#[test]
fn shortcut_lookup_needs_meta() {
    let mut keys = none_keys();
    keys.save = Some("s".to_string());
    keys.run = Some("r".to_string());
    let sc = Shortcuts::from_settings(&keys);
    let s = "s".to_string();
    let r = "r".to_string();
    let x = "x".to_string();
    assert_eq!(sc.lookup(0b1100, 0b0100, Some(&s)), Some(Action::Save));
    assert_eq!(sc.lookup(0b1100, 0b0100, Some(&r)), Some(Action::Run));
    assert_eq!(sc.lookup(0b1000, 0b0100, Some(&s)), None);
    assert_eq!(sc.lookup(0b0100, 0b0100, Some(&x)), None);
    assert_eq!(sc.lookup(0b0100, 0b0100, None), None);
}

#[test]
fn later_binding_wins() {
    let mut keys = none_keys();
    keys.run = Some("b".to_string());
    keys.build = Some("b".to_string());
    let sc = Shortcuts::from_settings(&keys);
    assert_eq!(sc.lookup(1, 1, Some(&"b".to_string())), Some(Action::Build));
    let names = sc.key_names();
    assert_eq!(names, vec![("b".to_string(), Action::Build)]);
}

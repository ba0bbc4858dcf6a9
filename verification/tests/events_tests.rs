use solidoak::events::{decode_event, handle_event, str_eq, Event, RpcValue};
use solidoak::state::State;

fn st(x: &str) -> RpcValue {
    RpcValue::Str(x.to_string())
}

#[test]
fn bufenter_carries_the_path() {
    let msg = vec![RpcValue::Other, st("bufenter"), RpcValue::Array(vec![st("/p/main.rs")])];
    match decode_event(&msg) {
        Event::BufEnter(p) => assert_eq!(p, "/p/main.rs"),
        _ => panic!("expected bufenter"),
    }
}

#[test]
fn malformed_bufenter_is_ignored() {
    let no_args = vec![RpcValue::Other, st("bufenter")];
    assert!(matches!(decode_event(&no_args), Event::Other));
    let empty = vec![RpcValue::Other, st("bufenter"), RpcValue::Array(vec![])];
    assert!(matches!(decode_event(&empty), Event::Other));
    let not_str = vec![RpcValue::Other, st("bufenter"), RpcValue::Array(vec![RpcValue::Other])];
    assert!(matches!(decode_event(&not_str), Event::Other));
}

#[test]
fn vimleave_and_others() {
    assert!(matches!(decode_event(&vec![RpcValue::Other, st("vimleave")]), Event::VimLeave));
    assert!(matches!(decode_event(&vec![RpcValue::Other, st("other")]), Event::Other));
    assert!(matches!(decode_event(&vec![]), Event::Other));
    assert!(matches!(decode_event(&vec![RpcValue::Other, RpcValue::Other]), Event::Other));
}

#[test]
fn handling_events() {
    let mut state = State::new(12);
    let out = handle_event(&mut state, Event::BufEnter("/p/a.rs".to_string()));
    assert!(!out.quit && out.save_prefs && out.refresh);
    assert_eq!(state.selection, Some("/p/a.rs".to_string()));
    let out = handle_event(&mut state, Event::Other);
    assert!(!out.quit && !out.save_prefs && out.refresh);
    assert_eq!(state.selection, Some("/p/a.rs".to_string()));
    let out = handle_event(&mut state, Event::VimLeave);
    assert!(out.quit && !out.save_prefs && out.refresh);
}

#[test]
fn string_equality() {
    assert!(str_eq("abc", "abc"));
    assert!(!str_eq("abc", "abd"));
    assert!(!str_eq("abc", "ab"));
    assert!(str_eq("", ""));
}

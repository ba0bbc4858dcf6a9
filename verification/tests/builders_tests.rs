use solidoak::builders::{stop_process, Builders, NO_PROCESS};

fn s(x: &str) -> String {
    x.to_string()
}

#[test]
fn stop_process_kills_once() {
    let mut pid = 42;
    assert_eq!(stop_process(&mut pid), Some(42));
    assert_eq!(pid, NO_PROCESS);
    assert_eq!(stop_process(&mut pid), None);
    assert_eq!(pid, -1);
}

#[test]
fn builders_lifecycle() {
    let mut b = Builders::new();
    assert!(!b.show_builder(None));
    assert!(b.show_builder(Some(&s("/p"))));
    assert!(!b.show_builder(Some(&s("/p"))));
    assert_eq!(b.pid_of(&s("/p")), Some(-1));
    assert_eq!(b.run_builder(&s("/p"), Ok(7)), None);
    assert_eq!(b.pid_of(&s("/p")), Some(7));
    assert_eq!(b.run_builder(&s("/q"), Ok(8)), None);
    assert!(!b.contains(&s("/q")));
    assert_eq!(b.run_builder(&s("/p"), Err(s("no cargo"))), Some(s("no cargo")));
    assert_eq!(b.run_builder(&s("/q"), Err(s("no cargo"))), None);
    assert_eq!(b.stop_builder(&s("/p")), Some(7));
    assert_eq!(b.stop_builder(&s("/p")), None);
    assert_eq!(b.pid_of(&s("/p")), Some(-1));
}

#[test]
fn stopping_all_builders() {
    let mut b = Builders::new();
    b.show_builder(Some(&s("/p")));
    b.show_builder(Some(&s("/q")));
    b.show_builder(Some(&s("/r")));
    b.run_builder(&s("/p"), Ok(10));
    b.run_builder(&s("/r"), Ok(30));
    let mut v = b.stop_builders();
    v.sort();
    assert_eq!(v, vec![(s("/p"), 10), (s("/r"), 30)]);
    assert_eq!(b.pid_of(&s("/p")), Some(-1));
    assert_eq!(b.pid_of(&s("/q")), Some(-1));
    assert!(b.stop_builders().is_empty());
}

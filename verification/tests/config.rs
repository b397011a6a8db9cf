use navetted::config::{check_bind, runtime_dir, Binding};

#[test]
fn the_network_is_served_only_where_that_was_asked_for() {
    assert_eq!(check_bind(true, false), Binding::Loopback);
    assert_eq!(check_bind(true, true), Binding::Loopback);
    assert_eq!(check_bind(false, true), Binding::Exposed);
    assert_eq!(check_bind(false, false), Binding::Refused);
}

#[test]
fn the_command_line_comes_before_the_environment() {
    let dir = |name: &str| Some(name.to_string());
    assert_eq!(runtime_dir(dir("/a"), dir("/b")), dir("/a"));
    assert_eq!(runtime_dir(None, dir("/b")), dir("/b"));
    assert_eq!(runtime_dir(None, None), None);
}

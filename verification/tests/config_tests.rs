use rws::cli::Config;

#[test]
fn config_defaults() {
    let c = Config::from_parts(None, None, None);
    assert_eq!(c.address, "127.0.0.1");
    assert_eq!(c.port, "8080");
    assert_eq!(c.root, ".");
}

#[test]
fn config_explicit_values() {
    let c = Config::from_parts(
        Some(String::from("0.0.0.0")),
        Some(String::from("3000")),
        Some(String::from("/srv/site")),
    );
    assert_eq!(c.address, "0.0.0.0");
    assert_eq!(c.port, "3000");
    assert_eq!(c.root, "/srv/site");
}

#[test]
fn config_bind_target() {
    let c = Config::from_parts(None, None, None);
    assert_eq!(c.bind_target(), "127.0.0.1:8080");
}

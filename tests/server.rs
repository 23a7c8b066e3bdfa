use mcpanel::server::{Properties, PropertyError, RCONProperty};

const FULL: &str = "server-ip=\nserver-port=25565\nmax-players=20\nmotd=A Server\nonline-mode=true\npvp=true\nhardcore=false\nwhite-list=false\nenable-rcon=true\nrcon.password=secret\nrcon.port=25575";

#[test]
fn reads_every_setting() {
    let p = Properties::new(FULL).unwrap();
    assert_eq!(p.ip, None);
    assert_eq!(p.port, 25565);
    assert_eq!(p.max_players, 20);
    assert_eq!(p.motd, Some("A Server".to_string()));
    assert!(p.online_mode);
    assert!(p.pvp);
    assert!(!p.hardcore);
    assert!(!p.whitelist);
    assert_eq!(p.rcon, RCONProperty::new(true, Some("secret".to_string()), 25575));
}

#[test]
fn missing_setting() {
    let text = FULL.replace("max-players=20\n", "");
    assert_eq!(
        Properties::new(&text),
        Err(PropertyError::Missing("max-players".to_string()))
    );
}

#[test]
fn setting_of_the_wrong_kind() {
    let text = FULL.replace("pvp=true", "pvp=yes");
    assert_eq!(Properties::new(&text), Err(PropertyError::WrongKind("pvp".to_string())));
}

#[test]
fn first_failing_setting_is_reported() {
    let text = FULL.replace("server-port=25565", "server-port=x").replace("rcon.port=25575", "");
    assert_eq!(
        Properties::new(&text),
        Err(PropertyError::WrongKind("server-port".to_string()))
    );
}

#[test]
fn rcon_property_keeps_its_fields() {
    let r = RCONProperty::new(false, None, 1);
    assert!(!r.enabled);
    assert_eq!(r.password, None);
    assert_eq!(r.port, 1);
}

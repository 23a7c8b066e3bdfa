//! The server settings that the configuration file must provide.
use vstd::prelude::*;
use crate::properties::{config_of, parse, ConfigTable, ValueModel};

verus! {

#[derive(Debug, Clone, PartialEq, Eq)]
pub struct RCONProperty {
    pub enabled: bool,
    pub password: Option<String>,
    pub port: u32,
}

impl RCONProperty {
    pub fn new(enabled: bool, password: Option<String>, port: u32) -> (r: RCONProperty)
        ensures
            r.enabled == enabled,
            r.password == password,
            r.port == port,
    {
        RCONProperty { enabled, password, port }
    }
}

#[derive(Debug, Clone, PartialEq, Eq)]
pub struct Properties {
    pub ip: Option<String>,
    pub port: u32,
    pub max_players: u32,
    pub motd: Option<String>,
    pub online_mode: bool,
    pub pvp: bool,
    pub hardcore: bool,
    pub rcon: RCONProperty,
    pub whitelist: bool,
}

/// Why the configuration does not give the settings.
#[derive(Debug, Clone, PartialEq, Eq)]
pub enum PropertyError {
    /// The key is not in the file.
    Missing(String),
    /// The key's value is not of the kind that the setting needs.
    WrongKind(String),
}

/// The kind of value that a setting needs; text settings take any value and
/// read as absent unless the value is text.
pub enum FieldKind {
    Text,
    Integer,
    Boolean,
}

/// The failure, if any, of one setting: its key, and whether it is missing
/// (else of the wrong kind).
pub open spec fn field_error(t: Map<Seq<char>, ValueModel>, key: Seq<char>, kind: FieldKind) -> Option<(Seq<char>, bool)> {
    if !t.contains_key(key) {
        Some((key, true))
    } else {
        match kind {
            FieldKind::Text => None,
            FieldKind::Integer => if t[key] is Integer {
                None
            } else {
                Some((key, false))
            },
            FieldKind::Boolean => if t[key] is Boolean {
                None
            } else {
                Some((key, false))
            },
        }
    }
}

pub open spec fn or_else(a: Option<(Seq<char>, bool)>, b: Option<(Seq<char>, bool)>) -> Option<(Seq<char>, bool)> {
    if a is Some {
        a
    } else {
        b
    }
}

/// The first setting, in the order they are read, that the table fails.
pub open spec fn properties_error(t: Map<Seq<char>, ValueModel>) -> Option<(Seq<char>, bool)> {
    or_else(field_error(t, "server-ip"@, FieldKind::Text),
    or_else(field_error(t, "server-port"@, FieldKind::Integer),
    or_else(field_error(t, "max-players"@, FieldKind::Integer),
    or_else(field_error(t, "motd"@, FieldKind::Text),
    or_else(field_error(t, "online-mode"@, FieldKind::Boolean),
    or_else(field_error(t, "pvp"@, FieldKind::Boolean),
    or_else(field_error(t, "hardcore"@, FieldKind::Boolean),
    or_else(field_error(t, "white-list"@, FieldKind::Boolean),
    or_else(field_error(t, "enable-rcon"@, FieldKind::Boolean),
    or_else(field_error(t, "rcon.password"@, FieldKind::Text),
    field_error(t, "rcon.port"@, FieldKind::Integer)))))))))))
}

pub open spec fn integer_at(t: Map<Seq<char>, ValueModel>, key: Seq<char>) -> u32 {
    t[key]->Integer_0
}

pub open spec fn boolean_at(t: Map<Seq<char>, ValueModel>, key: Seq<char>) -> bool {
    t[key]->Boolean_0
}

/// A text setting: its text where the value is text, else none.
pub open spec fn text_matches(r: Option<String>, t: Map<Seq<char>, ValueModel>, key: Seq<char>) -> bool {
    match t[key] {
        ValueModel::Text(s) => r is Some && r.unwrap()@ == s,
        _ => r is None,
    }
}

pub open spec fn error_matches(e: PropertyError, f: (Seq<char>, bool)) -> bool {
    match e {
        PropertyError::Missing(k) => f.1 && k@ == f.0,
        PropertyError::WrongKind(k) => !f.1 && k@ == f.0,
    }
}

fn text_field(t: &ConfigTable, key: &str) -> (r: Result<Option<String>, PropertyError>)
    requires
        t.wf(),
    ensures
        r is Err <==> field_error(t.view(), key@, FieldKind::Text) is Some,
        r matches Err(e) ==> error_matches(e, field_error(t.view(), key@, FieldKind::Text).unwrap()),
        r matches Ok(v) ==> text_matches(v, t.view(), key@),
{
    match t.get(key) {
        None => Err(PropertyError::Missing(String::from_str(key))),
        Some(v) => Ok(v.as_string()),
    }
}

fn integer_field(t: &ConfigTable, key: &str) -> (r: Result<u32, PropertyError>)
    requires
        t.wf(),
    ensures
        r is Err <==> field_error(t.view(), key@, FieldKind::Integer) is Some,
        r matches Err(e) ==> error_matches(e, field_error(t.view(), key@, FieldKind::Integer).unwrap()),
        r matches Ok(n) ==> n == integer_at(t.view(), key@),
{
    match t.get(key) {
        None => Err(PropertyError::Missing(String::from_str(key))),
        Some(v) => match v.as_u32() {
            Some(n) => Ok(n),
            None => Err(PropertyError::WrongKind(String::from_str(key))),
        },
    }
}

fn boolean_field(t: &ConfigTable, key: &str) -> (r: Result<bool, PropertyError>)
    requires
        t.wf(),
    ensures
        r is Err <==> field_error(t.view(), key@, FieldKind::Boolean) is Some,
        r matches Err(e) ==> error_matches(e, field_error(t.view(), key@, FieldKind::Boolean).unwrap()),
        r matches Ok(b) ==> b == boolean_at(t.view(), key@),
{
    match t.get(key) {
        None => Err(PropertyError::Missing(String::from_str(key))),
        Some(v) => match v.as_bool() {
            Some(b) => Ok(b),
            None => Err(PropertyError::WrongKind(String::from_str(key))),
        },
    }
}

impl Properties {
    /// The settings that configuration text gives, or the first setting, in
    /// the order they are read, that it lacks or gives a value of the wrong
    /// kind.
    pub fn new(data: &str) -> (r: Result<Properties, PropertyError>)
        ensures
            r is Err <==> properties_error(config_of(data@)) is Some,
            r matches Err(e) ==> error_matches(e, properties_error(config_of(data@)).unwrap()),
            r matches Ok(p) ==> {
                let t = config_of(data@);
                &&& text_matches(p.ip, t, "server-ip"@)
                &&& p.port == integer_at(t, "server-port"@)
                &&& p.max_players == integer_at(t, "max-players"@)
                &&& text_matches(p.motd, t, "motd"@)
                &&& p.online_mode == boolean_at(t, "online-mode"@)
                &&& p.pvp == boolean_at(t, "pvp"@)
                &&& p.hardcore == boolean_at(t, "hardcore"@)
                &&& p.whitelist == boolean_at(t, "white-list"@)
                &&& p.rcon.enabled == boolean_at(t, "enable-rcon"@)
                &&& text_matches(p.rcon.password, t, "rcon.password"@)
                &&& p.rcon.port == integer_at(t, "rcon.port"@)
            },
    {
        let t = parse(data);
        let ip = match text_field(&t, "server-ip") {
            Ok(v) => v,
            Err(e) => return Err(e),
        };
        let port = match integer_field(&t, "server-port") {
            Ok(v) => v,
            Err(e) => return Err(e),
        };
        let max_players = match integer_field(&t, "max-players") {
            Ok(v) => v,
            Err(e) => return Err(e),
        };
        let motd = match text_field(&t, "motd") {
            Ok(v) => v,
            Err(e) => return Err(e),
        };
        let online_mode = match boolean_field(&t, "online-mode") {
            Ok(v) => v,
            Err(e) => return Err(e),
        };
        let pvp = match boolean_field(&t, "pvp") {
            Ok(v) => v,
            Err(e) => return Err(e),
        };
        let hardcore = match boolean_field(&t, "hardcore") {
            Ok(v) => v,
            Err(e) => return Err(e),
        };
        let whitelist = match boolean_field(&t, "white-list") {
            Ok(v) => v,
            Err(e) => return Err(e),
        };
        let rcon_enabled = match boolean_field(&t, "enable-rcon") {
            Ok(v) => v,
            Err(e) => return Err(e),
        };
        let rcon_password = match text_field(&t, "rcon.password") {
            Ok(v) => v,
            Err(e) => return Err(e),
        };
        let rcon_port = match integer_field(&t, "rcon.port") {
            Ok(v) => v,
            Err(e) => return Err(e),
        };
        Ok(
            Properties {
                ip,
                port,
                max_players,
                motd,
                online_mode,
                pvp,
                hardcore,
                rcon: RCONProperty::new(rcon_enabled, rcon_password, rcon_port),
                whitelist,
            },
        )
    }
}

} // verus!

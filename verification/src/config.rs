//! Configuration: the migration directory, the database connection
//! string, and the debug flag, assembled from a caller-supplied list of
//! environment variables. Reading the process environment is the
//! caller's job; everything that decides or formats is verified here.

use crate::error::Error;
use crate::text::{spec_dec_digits, spec_parse_u16, parse_u16, str_eq, u16_to_dec};
use vstd::prelude::*;

verus! {

/// Process-wide configuration, passed explicitly into each component.
#[derive(Debug, PartialEq, Eq)]
pub struct Config {
    pub migrate_dir: String,
    pub connection_string: String,
    pub debug: bool,
}

impl Config {
    /// Builds a configuration from its three parts.
    pub fn new(migrate_dir: String, connection_string: String, debug: bool) -> (r: Config)
        ensures
            r.migrate_dir@ == migrate_dir@,
            r.connection_string@ == connection_string@,
            r.debug == debug,
    {
        Config { migrate_dir, connection_string, debug }
    }
}

/// The first value stored under `key`, if any.
pub open spec fn spec_lookup(vars: Seq<(String, String)>, key: Seq<char>) -> Option<Seq<char>>
    decreases vars.len(),
{
    if vars.len() == 0 {
        None
    } else if vars[0].0@ == key {
        Some(vars[0].1@)
    } else {
        spec_lookup(vars.drop_first(), key)
    }
}

/// Finds the value stored under `key` in the variable list.
fn lookup_var<'a>(vars: &'a Vec<(String, String)>, key: &str) -> (r: Option<&'a String>)
    ensures
        (match r {
            Some(v) => spec_lookup(vars@, key@) == Some(v@),
            None => spec_lookup(vars@, key@) is None,
        }),
{
    let mut i: usize = 0;
    proof {
        assert(vars@.skip(0) =~= vars@);
    }
    while i < vars.len()
        invariant
            0 <= i <= vars.len(),
            spec_lookup(vars@, key@) == spec_lookup(vars@.skip(i as int), key@),
        decreases vars.len() - i,
    {
        proof {
            assert(vars@.skip(i as int)[0] == vars@[i as int]);
            assert(vars@.skip(i as int).drop_first() =~= vars@.skip(i + 1));
        }
        if str_eq(vars[i].0.as_str(), key) {
            return Some(&vars[i].1);
        }
        i = i + 1;
    }
    proof {
        assert(vars@.skip(vars@.len() as int).len() == 0);
    }
    None
}

/// Returns the value of the environment variable `key`, or the
/// missing-variable error naming it.
pub fn get_env(key: &str, vars: &Vec<(String, String)>) -> (r: Result<String, Error>)
    ensures
        (match spec_lookup(vars@, key@) {
            Some(v) => r is Ok && r->Ok_0@ == v,
            None => r is Err && (r->Err_0 matches Error::MissingEnv { name } && name@ == key@),
        }),
{
    match lookup_var(vars, key) {
        Some(v) => Ok(v.clone()),
        None => Err(Error::MissingEnv { name: key.to_owned() }),
    }
}

/// Which part of the connection-string configuration is unusable.
#[derive(Clone, Copy, Debug, PartialEq, Eq, Structural)]
pub enum EnvFault {
    MissingUser,
    MissingHost,
    MissingPort,
    BadPort,
    MissingDb,
}

/// The environment variable each fault is about.
pub open spec fn fault_key(f: EnvFault) -> Seq<char> {
    match f {
        EnvFault::MissingUser => "PG_USER"@,
        EnvFault::MissingHost => "PG_HOST"@,
        EnvFault::MissingPort => "PG_PORT"@,
        EnvFault::BadPort => "PG_PORT"@,
        EnvFault::MissingDb => "PG_DB"@,
    }
}

/// A postgres connection URL assembled from its parts, the password
/// present or absent and the port rendered in decimal.
pub open spec fn spec_connection_string(
    user: Seq<char>,
    password: Option<Seq<char>>,
    host: Seq<char>,
    port: u16,
    db: Seq<char>,
) -> Seq<char> {
    match password {
        Some(p) => "postgresql://"@ + user + ":"@ + p + "@"@ + host + ":"@ + spec_dec_digits(
            port as int,
        ) + "/"@ + db,
        None => "postgresql://"@ + user + "@"@ + host + ":"@ + spec_dec_digits(port as int) + "/"@
            + db,
    }
}

/// The connection string the variable list yields: `PG_CONNECTION_STRING`
/// verbatim when set, else a URL assembled from `PG_USER`, the optional
/// `PG_PASSWORD`, `PG_HOST`, `PG_PORT` and `PG_DB`, the variables
/// checked in that order.
pub open spec fn spec_connection_string_from_vars(v: Seq<(String, String)>) -> Result<
    Seq<char>,
    EnvFault,
> {
    match spec_lookup(v, "PG_CONNECTION_STRING"@) {
        Some(cs) => Ok(cs),
        None => match spec_lookup(v, "PG_USER"@) {
            None => Err(EnvFault::MissingUser),
            Some(user) => match spec_lookup(v, "PG_HOST"@) {
                None => Err(EnvFault::MissingHost),
                Some(host) => match spec_lookup(v, "PG_PORT"@) {
                    None => Err(EnvFault::MissingPort),
                    Some(port_str) => match spec_parse_u16(port_str) {
                        None => Err(EnvFault::BadPort),
                        Some(port) => match spec_lookup(v, "PG_DB"@) {
                            None => Err(EnvFault::MissingDb),
                            Some(db) => Ok(
                                spec_connection_string(
                                    user,
                                    spec_lookup(v, "PG_PASSWORD"@),
                                    host,
                                    port,
                                    db,
                                ),
                            ),
                        },
                    },
                },
            },
        },
    }
}

/// What an environment fault reports: the port variable that would not
/// parse, or the first missing variable.
pub open spec fn env_fault_error(e: Error, f: EnvFault) -> bool {
    if f is BadPort {
        e matches Error::BadEnvFormat { name } && name@ == fault_key(f)
    } else {
        e matches Error::MissingEnv { name } && name@ == fault_key(f)
    }
}

/// Assembles the database connection string from the environment
/// variable list: `PG_CONNECTION_STRING` wins; otherwise the URL is
/// built from the individual `PG_*` variables.
pub fn connection_string_from_env(vars: &Vec<(String, String)>) -> (r: Result<String, Error>)
    ensures
        (match spec_connection_string_from_vars(vars@) {
            Ok(cs) => r is Ok && r->Ok_0@ == cs,
            Err(f) => r is Err && env_fault_error(r->Err_0, f),
        }),
{
    if let Some(cs) = lookup_var(vars, "PG_CONNECTION_STRING") {
        return Ok(cs.clone());
    }
    let pg_user = match get_env("PG_USER", vars) {
        Ok(v) => v,
        Err(e) => {
            return Err(e);
        },
    };
    let maybe_pg_password = lookup_var(vars, "PG_PASSWORD");
    let pg_host = match get_env("PG_HOST", vars) {
        Ok(v) => v,
        Err(e) => {
            return Err(e);
        },
    };
    let pg_port_str = match get_env("PG_PORT", vars) {
        Ok(v) => v,
        Err(e) => {
            return Err(e);
        },
    };
    let pg_port = match parse_u16(pg_port_str.as_str()) {
        Some(p) => p,
        None => {
            return Err(Error::BadEnvFormat { name: String::from_str("PG_PORT") });
        },
    };
    let pg_db = match get_env("PG_DB", vars) {
        Ok(v) => v,
        Err(e) => {
            return Err(e);
        },
    };
    let port_dec = u16_to_dec(pg_port);
    let mut s = String::from_str("postgresql://");
    s.append(pg_user.as_str());
    match maybe_pg_password {
        Some(p) => {
            s.append(":");
            s.append(p.as_str());
        },
        None => {},
    }
    s.append("@");
    s.append(pg_host.as_str());
    s.append(":");
    s.append(port_dec.as_str());
    s.append("/");
    s.append(pg_db.as_str());
    proof {
        assert(s@ =~= spec_connection_string(
            pg_user@,
            spec_lookup(vars@, "PG_PASSWORD"@),
            pg_host@,
            pg_port,
            pg_db@,
        ));
    }
    Ok(s)
}

/// Builds the whole configuration from the environment variable list:
/// `MIGRATE_DIR` is required, `DEBUG` is on exactly when set to
/// `true`, and the connection string is assembled as
/// `connection_string_from_env` does.
pub fn config_from_vars(vars: &Vec<(String, String)>) -> (r: Result<Config, Error>)
    ensures
        (match spec_lookup(vars@, "MIGRATE_DIR"@) {
            None => r is Err && (r->Err_0 matches Error::MissingEnv { name } && name@
                == "MIGRATE_DIR"@),
            Some(md) => match spec_connection_string_from_vars(vars@) {
                Err(f) => r is Err && env_fault_error(r->Err_0, f),
                Ok(cs) => r is Ok && r->Ok_0.migrate_dir@ == md && r->Ok_0.connection_string@ == cs
                    && r->Ok_0.debug == (spec_lookup(vars@, "DEBUG"@) == Some("true"@)),
            },
        }),
{
    let migrate_dir = match get_env("MIGRATE_DIR", vars) {
        Ok(v) => v,
        Err(e) => {
            return Err(e);
        },
    };
    let debug = match lookup_var(vars, "DEBUG") {
        Some(v) => str_eq(v.as_str(), "true"),
        None => false,
    };
    let connection_string = match connection_string_from_env(vars) {
        Ok(v) => v,
        Err(e) => {
            return Err(e);
        },
    };
    Ok(Config { migrate_dir, connection_string, debug })
}

} // verus!

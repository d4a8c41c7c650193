//! Process configuration, from the values of its settings.

use vstd::prelude::*;

use crate::error::KohakuError;
use crate::payload::{digit_of, digits_value, is_digit};
use crate::text::chars_of;
use vstd::slice::slice_to_vec;

verus! {

/// How much the process logs, from most to least verbose.
#[derive(Debug, Clone, Copy, PartialEq, Eq, Structural)]
pub enum LogLevel {
    Trace,
    Debug,
    Info,
    Warn,
    Error,
}

/// A character in ASCII lower case.
pub open spec fn ascii_lower(c: char) -> char {
    if 'A' <= c <= 'Z' {
        ((c as u32) + 32) as char
    } else {
        c
    }
}

/// `s` equals the lower-case word `w`, ignoring ASCII case.
pub open spec fn eq_ignore_case(s: Seq<char>, w: Seq<char>) -> bool {
    s.len() == w.len() && forall|i: int| 0 <= i < s.len() ==> ascii_lower(#[trigger] s[i]) == w[i]
}

/// The level that a setting names: a level name in any ASCII case, or a
/// number from 1 (error) to 5 (trace).
pub open spec fn level_named(s: Seq<char>) -> Option<LogLevel> {
    if s == seq!['1'] || eq_ignore_case(s, seq!['e', 'r', 'r', 'o', 'r']) {
        Some(LogLevel::Error)
    } else if s == seq!['2'] || eq_ignore_case(s, seq!['w', 'a', 'r', 'n']) {
        Some(LogLevel::Warn)
    } else if s == seq!['3'] || eq_ignore_case(s, seq!['i', 'n', 'f', 'o']) {
        Some(LogLevel::Info)
    } else if s == seq!['4'] || eq_ignore_case(s, seq!['d', 'e', 'b', 'u', 'g']) {
        Some(LogLevel::Debug)
    } else if s == seq!['5'] || eq_ignore_case(s, seq!['t', 'r', 'a', 'c', 'e']) {
        Some(LogLevel::Trace)
    } else {
        None
    }
}

/// Relies on `FromStr for tracing::Level`: a number that parses as 1 to 5,
/// or one of the five names ignoring ASCII case; anything else is refused.
#[verifier::external_body]
fn parse_level(s: &str) -> (r: Option<LogLevel>)
    ensures
        level_named(s@) is Some ==> r == level_named(s@),
{
    match s.parse::<tracing::Level>() {
        Ok(tracing::Level::ERROR) => Some(LogLevel::Error),
        Ok(tracing::Level::WARN) => Some(LogLevel::Warn),
        Ok(tracing::Level::INFO) => Some(LogLevel::Info),
        Ok(tracing::Level::DEBUG) => Some(LogLevel::Debug),
        Ok(_) => Some(LogLevel::Trace),
        Err(_) => None,
    }
}

/// The port that a setting names: one or more decimal digits whose value
/// fits in 16 bits.
pub open spec fn port_of(s: Seq<char>) -> Option<u16> {
    digits_port(port_digits(s))
}

/// The digits of a port setting: the text after an optional leading `+`.
pub open spec fn port_digits(s: Seq<char>) -> Seq<char> {
    if s.len() > 0 && s[0] == '+' {
        s.drop_first()
    } else {
        s
    }
}

/// The port that a run of digits names, if it fits in 16 bits.
pub open spec fn digits_port(d: Seq<char>) -> Option<u16> {
    if d.len() > 0 && (forall|i: int| 0 <= i < d.len() ==> is_digit(#[trigger] d[i])) && digits_value(d) <= 65535 {
        Some(digits_value(d) as u16)
    } else {
        None
    }
}

/// Reads a port number.
pub fn parse_port(s: &str) -> (r: Option<u16>)
    ensures
        r == port_of(s@),
{
    let v = chars_of(s);
    let start: usize = if v.len() > 0 && v[0] == '+' {
        1
    } else {
        0
    };
    let ghost d = v@.subrange(start as int, v@.len() as int);
    proof {
        if v@.len() > 0 && v@[0] == '+' {
            assert(start == 1);
            assert(d =~= s@.drop_first());
        } else {
            assert(start == 0);
            assert(d =~= s@);
        }
        assert(port_digits(s@) == d);
    }
    if v.len() == start {
        assert(d.len() == 0);
        return None;
    }
    let mut acc: u64 = 0;
    let mut i: usize = start;
    while i < v.len()
        invariant
            v@ == s@,
            start <= i <= v@.len(),
            d == v@.subrange(start as int, v@.len() as int),
            d == port_digits(s@),
            forall|j: int| start <= j < i ==> is_digit(#[trigger] v@[j]),
            acc == if digits_value(v@.subrange(start as int, i as int)) > 65536 {
                65536
            } else {
                digits_value(v@.subrange(start as int, i as int))
            },
        decreases v.len() - i,
    {
        let c = v[i];
        if !('0' <= c && c <= '9') {
            assert(d[i - start] == c);
            assert(!is_digit(d[i - start]));
            return None;
        }
        let x = (c as u32 - '0' as u32) as u64;
        proof {
            assert(v@.subrange(start as int, i + 1).drop_last() =~= v@.subrange(start as int, i as int));
            assert(v@.subrange(start as int, i + 1).last() == c);
        }
        acc = acc * 10 + x;
        if acc > 65536 {
            acc = 65536;
        }
        i = i + 1;
    }
    assert forall|j: int| 0 <= j < d.len() implies is_digit(#[trigger] d[j]) by {
        assert(d[j] == v@[start + j]);
    }
    assert(v@.subrange(start as int, v@.len() as int) == d);
    if acc > 65535 {
        None
    } else {
        Some(acc as u16)
    }
}

/// Settings of the process.
#[derive(Debug)]
pub struct Config {
    pub server_addr: String,
    pub server_port: u16,
    pub logging_level: LogLevel,
    pub database_url: String,
    /// The raw secret of the bootstrap credential.
    pub bootstrap_key: String,
    /// Secret that tokens are signed with.
    pub encryption_key: Vec<u8>,
}

/// A setting that must be present.
fn required(name: &str, value: Option<String>) -> (r: Result<String, KohakuError>)
    ensures
        value matches Some(v) ==> r == Ok::<String, KohakuError>(v),
        value is None ==> (r matches Err(e) && e is InternalServerError),
{
    match value {
        Some(v) => Ok(v),
        None => {
            let mut msg = String::from_str(name);
            msg.append(" not set!");
            Err(KohakuError::InternalServerError(msg))
        },
    }
}

impl Config {
    /// Builds the configuration from the values of its settings, in the
    /// order `SERVER_ADDR`, `SERVER_PORT`, `SERVER_LOGGING_LEVEL`,
    /// `DATABASE_URL`, `BOOTSTRAP_KEY`, `SERVER_ENCRYPTION_KEY`. The first
    /// three default to `127.0.0.1`, `8080` and `INFO`; the others must be
    /// given.
    pub fn new(
        server_addr: Option<String>,
        server_port: Option<String>,
        logging_level: Option<String>,
        database_url: Option<String>,
        bootstrap_key: Option<String>,
        encryption_key: Option<String>,
    ) -> (r: Result<Config, KohakuError>)
        ensures
            r matches Ok(c) ==> {
                &&& c.server_addr@ == match server_addr {
                    Some(a) => a@,
                    None => "127.0.0.1"@,
                }
                &&& Some(c.server_port) == port_of(
                    match server_port {
                        Some(p) => p@,
                        None => "8080"@,
                    },
                )
                &&& logging_level is None ==> c.logging_level == LogLevel::Info
                &&& (logging_level is Some && level_named(logging_level->Some_0@) is Some) ==> Some(c.logging_level)
                    == level_named(logging_level->Some_0@)
                &&& database_url == Some(c.database_url)
                &&& bootstrap_key == Some(c.bootstrap_key)
                &&& encryption_key matches Some(k) && c.encryption_key@ == vstd::utf8::encode_utf8(k@)
            },
            database_url is None || bootstrap_key is None || encryption_key is None ==> r is Err,
            server_port matches Some(p) && port_of(p@) is None ==> r is Err,
    {
        let server_addr = match server_addr {
            Some(a) => a,
            None => String::from_str("127.0.0.1"),
        };
        let port_text = match server_port {
            Some(p) => p,
            None => String::from_str("8080"),
        };
        let server_port = match parse_port(port_text.as_str()) {
            Some(p) => p,
            None => {
                return Err(
                    KohakuError::InternalServerError(String::from_str("SERVER_PORT must be a valid port number")),
                )
            },
        };
        let level_text = match logging_level {
            Some(l) => l,
            None => String::from_str("INFO"),
        };
        proof {
            reveal_strlit("INFO");
            let t = "INFO"@;
            assert(eq_ignore_case(t, seq!['i', 'n', 'f', 'o']));
            assert(!eq_ignore_case(t, seq!['e', 'r', 'r', 'o', 'r']));
            assert(!eq_ignore_case(t, seq!['w', 'a', 'r', 'n'])) by {
                assert(ascii_lower(t[0]) != 'w');
            }
            assert(t != seq!['1'] && t != seq!['2'] && t != seq!['3']);
        }
        let logging_level = match parse_level(level_text.as_str()) {
            Some(l) => l,
            None => {
                return Err(
                    KohakuError::InternalServerError(String::from_str("SERVER_LOGGING_LEVEL is not a level")),
                )
            },
        };
        let database_url = match required("DATABASE_URL", database_url) {
            Ok(v) => v,
            Err(e) => return Err(e),
        };
        let bootstrap_key = match required("BOOTSTRAP_KEY", bootstrap_key) {
            Ok(v) => v,
            Err(e) => return Err(e),
        };
        let key_text = match required("SERVER_ENCRYPTION_KEY", encryption_key) {
            Ok(v) => v,
            Err(e) => return Err(e),
        };
        let encryption_key = slice_to_vec(key_text.as_str().as_bytes());
        Ok(Config { server_addr, server_port, logging_level, database_url, bootstrap_key, encryption_key })
    }
}

/// Puts the configuration in `slot`, once: a second initialisation fails and
/// leaves the first in place.
pub fn init_config(slot: &mut Option<Config>, config: Config) -> (r: Result<(), KohakuError>)
    ensures
        (*old(slot)) is Some ==> r is Err && *final(slot) == *old(slot),
        (*old(slot)) is None ==> r is Ok && *final(slot) == Some(config),
        r matches Err(e) ==> e is InternalServerError,
{
    if slot.is_some() {
        return Err(KohakuError::InternalServerError(String::from_str("Config already initialized")));
    }
    *slot = Some(config);
    Ok(())
}

/// The configuration in `slot`; it must have been put there.
pub fn get_config(slot: &Option<Config>) -> (r: &Config)
    requires
        slot is Some,
    ensures
        Some(*r) == *slot,
{
    slot.as_ref().unwrap()
}

} // verus!

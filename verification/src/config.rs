//! Settings of the alarm receiver: database URL, listening port and AES key,
//! checked the way the service reads them from its environment.

use crate::text::{chars_of, str_eq};
use crate::uri::hex_digit_value;
use vstd::prelude::*;
use vstd::utf8::encode_utf8;

verus! {

/// Port the receiver listens on when none is configured.
pub const DEFAULT_LISTEN_PORT: &'static str = "4040";

/// Hex text that `hex::decode` accepts: an even number of hex digits,
/// either case.
pub open spec fn hex_decodable(bytes: Seq<u8>) -> bool {
    bytes.len() % 2 == 0 && forall|i: int| 0 <= i < bytes.len() ==> (#[trigger] hex_digit_value(bytes[i])) is Some
}

/// The bytes that hex text stands for, two digits each, high digit first.
pub open spec fn hex_decoded(bytes: Seq<u8>) -> Seq<u8> {
    Seq::new(
        bytes.len() / 2,
        |i: int|
            (16 * hex_digit_value(bytes[2 * i])->0 + hex_digit_value(bytes[2 * i + 1])->0) as u8,
    )
}

/// Decodes hex text (`hex::decode`). Trusted: it succeeds exactly on an
/// even number of hex digits of either case, and gives the byte of each
/// pair, high digit first, as the crate's source shows (`FromHex for
/// Vec<u8>` and `val`).
#[verifier::external_body]
fn hex_decode(s: &str) -> (res: Option<Vec<u8>>)
    ensures
        res is Some <==> hex_decodable(encode_utf8(s@)),
        res matches Some(v) ==> v@ == hex_decoded(encode_utf8(s@)),
{
    hex::decode(s).ok()
}

/// Numeric value of decimal digits.
pub open spec fn decimal_value(ds: Seq<char>) -> int
    decreases ds.len(),
{
    if ds.len() == 0 {
        0
    } else {
        decimal_value(ds.drop_last()) * 10 + (ds.last() as int - 48)
    }
}

/// Every character is an ASCII decimal digit.
pub open spec fn all_digits(ds: Seq<char>) -> bool {
    forall|i: int| 0 <= i < ds.len() ==> '0' <= #[trigger] ds[i] <= '9'
}

/// What `str::parse::<u16>` gives: an optional `+` sign, then at least one
/// decimal digit, with a value below 65536.
pub open spec fn parse_u16_spec(s: Seq<char>) -> Option<u16> {
    let ds = if s.len() > 0 && s[0] == '+' {
        s.drop_first()
    } else {
        s
    };
    if ds.len() > 0 && all_digits(ds) && decimal_value(ds) <= 65535 {
        Some(decimal_value(ds) as u16)
    } else {
        None
    }
}

proof fn lemma_decimal_value_grows(ds: Seq<char>)
    requires
        all_digits(ds),
    ensures
        decimal_value(ds) >= 0,
        forall|k: int| 0 <= k <= ds.len() ==> decimal_value(#[trigger] ds.take(k)) <= decimal_value(ds),
    decreases ds.len(),
{
    if ds.len() > 0 {
        let r = ds.drop_last();
        assert(all_digits(r)) by {
            assert forall|i: int| 0 <= i < r.len() implies '0' <= #[trigger] r[i] <= '9' by {
                assert(r[i] == ds[i]);
            }
        }
        lemma_decimal_value_grows(r);
        assert('0' <= ds[ds.len() - 1] <= '9');
        assert forall|k: int| 0 <= k <= ds.len() implies decimal_value(#[trigger] ds.take(k)) <= decimal_value(ds) by {
            if k < ds.len() {
                assert(ds.take(k) =~= r.take(k));
            } else {
                assert(ds.take(k) =~= ds);
            }
        }
    }
}

/// Parses a port number (`str::parse::<u16>`, see `parse_u16_spec`).
pub fn parse_port(s: &str) -> (res: Option<u16>)
    ensures
        res == parse_u16_spec(s@),
{
    let cs = chars_of(s);
    let mut start: usize = 0;
    if cs.len() > 0 && cs[0] == '+' {
        start = 1;
    }
    let ghost ds = if cs@.len() > 0 && cs@[0] == '+' {
        cs@.drop_first()
    } else {
        cs@
    };
    assert(ds =~= cs@.skip(start as int));
    if start == cs.len() {
        return None;
    }
    let mut value: u32 = 0;
    let mut i: usize = start;
    assert(ds.take(0) =~= Seq::<char>::empty());
    while i < cs.len()
        invariant
            cs@ == s@,
            ds == (if s@.len() > 0 && s@[0] == '+' {
                s@.drop_first()
            } else {
                s@
            }),
            ds =~= cs@.skip(start as int),
            start < cs@.len(),
            start <= i <= cs@.len(),
            all_digits(ds.take(i - start)),
            value == decimal_value(ds.take(i - start)),
            value <= 65535,
        decreases cs@.len() - i,
    {
        let c = cs[i];
        if c < '0' || c > '9' {
            assert(ds[i - start] == c);
            assert(!all_digits(ds));
            return None;
        }
        let d: u32 = (c as u32) - 48;
        let next: u32 = value * 10 + d;
        assert(ds.take(i - start + 1).drop_last() =~= ds.take(i - start));
        assert(ds.take(i - start + 1).last() == c);
        assert(all_digits(ds.take(i - start + 1))) by {
            let t = ds.take(i - start + 1);
            assert forall|j: int| 0 <= j < t.len() implies '0' <= #[trigger] t[j] <= '9' by {
                if j < i - start {
                    assert(t[j] == ds.take(i - start)[j]);
                }
            }
        }
        assert(next == decimal_value(ds.take(i - start + 1)));
        if next > 65535 {
            proof {
                if all_digits(ds) {
                    lemma_decimal_value_grows(ds);
                    assert(decimal_value(ds.take(i - start + 1)) <= decimal_value(ds));
                }
            }
            return None;
        }
        value = next;
        i = i + 1;
    }
    assert(ds.take(i - start) =~= ds);
    Some(value as u16)
}

/// The receiver's settings.
#[derive(Clone)]
pub struct Config {
    pub database_url: String,
    pub listen_port: u16,
    pub aes_key: Vec<u8>,
}

/// Why the settings could not be built.
#[derive(Clone, Copy, Debug, PartialEq, Eq, Structural)]
pub enum ConfigError {
    MissingDatabaseUrl,
    InvalidListenPort,
    MissingAesKey,
    InvalidAesKey,
}

impl ConfigError {
    /// The message the service stops with.
    pub fn message(&self) -> (m: &'static str)
        ensures
            m@ == match self {
                ConfigError::MissingDatabaseUrl => "DATABASE_URL must be set"@,
                ConfigError::InvalidListenPort => "LISTEN_PORT must be a number"@,
                ConfigError::MissingAesKey => "AES_KEY must be set"@,
                ConfigError::InvalidAesKey => "AES_KEY must be a valid hex string"@,
            },
    {
        match self {
            ConfigError::MissingDatabaseUrl => "DATABASE_URL must be set",
            ConfigError::InvalidListenPort => "LISTEN_PORT must be a number",
            ConfigError::MissingAesKey => "AES_KEY must be set",
            ConfigError::InvalidAesKey => "AES_KEY must be a valid hex string",
        }
    }
}

/// The port text used: the configured one, or the default.
pub open spec fn port_text(listen_port: Option<String>) -> Seq<char> {
    match listen_port {
        Some(p) => p@,
        None => DEFAULT_LISTEN_PORT@,
    }
}

impl Config {
    /// Builds the settings from the values of `DATABASE_URL`, `LISTEN_PORT`
    /// and `AES_KEY` (each absent when unset), checked in that order: the
    /// URL must be set, the port (default 4040) must be a `u16`, the key must
    /// be set and be hex text.
    pub fn from_values(
        database_url: Option<String>,
        listen_port: Option<String>,
        aes_key_hex: Option<String>,
    ) -> (res: Result<Config, ConfigError>)
        ensures
            match res {
                Ok(c) => {
                    &&& database_url matches Some(u) && c.database_url@ == u@
                    &&& parse_u16_spec(port_text(listen_port)) == Some(c.listen_port)
                    &&& aes_key_hex matches Some(k) && hex_decodable(encode_utf8(k@))
                        && c.aes_key@ == hex_decoded(encode_utf8(k@))
                },
                Err(e) => e == if database_url is None {
                    ConfigError::MissingDatabaseUrl
                } else if parse_u16_spec(port_text(listen_port)) is None {
                    ConfigError::InvalidListenPort
                } else if aes_key_hex is None {
                    ConfigError::MissingAesKey
                } else {
                    ConfigError::InvalidAesKey
                },
            },
            res is Err ==> (database_url is None || parse_u16_spec(port_text(listen_port)) is None
                || aes_key_hex is None || !hex_decodable(encode_utf8(aes_key_hex->0@))),
    {
        let database_url = match database_url {
            Some(u) => u,
            None => return Err(ConfigError::MissingDatabaseUrl),
        };
        let port = match &listen_port {
            Some(p) => parse_port(p.as_str()),
            None => parse_port(DEFAULT_LISTEN_PORT),
        };
        let listen_port = match port {
            Some(p) => p,
            None => return Err(ConfigError::InvalidListenPort),
        };
        let key_hex = match aes_key_hex {
            Some(k) => k,
            None => return Err(ConfigError::MissingAesKey),
        };
        let aes_key = match hex_decode(key_hex.as_str()) {
            Some(k) => k,
            None => return Err(ConfigError::InvalidAesKey),
        };
        Ok(Config { database_url, listen_port, aes_key })
    }
}

} // verus!

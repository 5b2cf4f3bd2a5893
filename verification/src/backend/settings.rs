//! The server's settings, read from the variables `FRAND_HOME_LOG4RS`,
//! `FRAND_HOME_LOCAL_MODE`, `FRAND_HOME_SERVER_PORT`, `FRAND_HOME_TLS_CERT`
//! and `FRAND_HOME_TLS_KEY`: what each variable must hold.

use vstd::prelude::*;
use vstd::string::StrSliceExecFns;
use crate::text::same_text;

verus! {

/// Why a setting could not be read.
#[derive(Debug, PartialEq, Eq)]
pub enum SettingsError {
    /// The variable is not set.
    Missing,
    /// The variable does not hold a value of the setting's type.
    Invalid,
}

/// Whether a character is an ASCII digit.
pub open spec fn is_digit(c: char) -> bool {
    '0' <= c <= '9'
}

/// The number that a sequence of digits writes in decimal.
pub open spec fn decimal(s: Seq<char>) -> int
    decreases s.len(),
{
    if s.len() == 0 {
        0
    } else {
        decimal(s.drop_last()) * 10 + (s.last() as int - '0' as int)
    }
}

/// The digits of a number text: all of it but a leading `+`.
pub open spec fn digits_of(s: Seq<char>) -> Seq<char> {
    if s.len() > 0 && s[0] == '+' {
        s.skip(1)
    } else {
        s
    }
}

/// The `u16` that `s` writes, as Rust's `u16::from_str` reads it: an
/// optional `+`, then at least one decimal digit and nothing else, of a
/// value that fits.
pub open spec fn parse_u16(s: Seq<char>) -> Option<u16> {
    let d = digits_of(s);
    if d.len() > 0 && (forall|i: int| 0 <= i < d.len() ==> is_digit(#[trigger] d[i])) && decimal(d)
        <= u16::MAX {
        Some(decimal(d) as u16)
    } else {
        None
    }
}

/// The `bool` that `s` writes, as Rust's `bool::from_str` reads it:
/// exactly `true` or `false`.
pub open spec fn parse_bool(s: Seq<char>) -> Option<bool> {
    if s == seq!['t', 'r', 'u', 'e'] {
        Some(true)
    } else if s == seq!['f', 'a', 'l', 's', 'e'] {
        Some(false)
    } else {
        None
    }
}

/// The server's settings.
pub struct Settings;

impl Settings {
    /// The path of the log configuration: the variable as it is.
    pub fn log4rs(var: Option<String>) -> (r: Result<String, SettingsError>)
        ensures
            match var {
                Some(v) => r matches Ok(s) && s == v,
                None => r == Err::<String, SettingsError>(SettingsError::Missing),
            },
    {
        match var {
            Some(v) => Ok(v),
            None => Err(SettingsError::Missing),
        }
    }

    /// Whether the server runs locally, without TLS: `true` or `false`.
    pub fn local_mode(var: Option<&str>) -> (r: Result<bool, SettingsError>)
        ensures
            match var {
                Some(v) => match parse_bool(v@) {
                    Some(b) => r == Ok::<bool, SettingsError>(b),
                    None => r == Err::<bool, SettingsError>(SettingsError::Invalid),
                },
                None => r == Err::<bool, SettingsError>(SettingsError::Missing),
            },
    {
        match var {
            Some(v) => match parse_bool_text(v) {
                Some(b) => Ok(b),
                None => Err(SettingsError::Invalid),
            },
            None => Err(SettingsError::Missing),
        }
    }

    /// The port the server listens on: a decimal `u16`.
    pub fn server_port(var: Option<&str>) -> (r: Result<u16, SettingsError>)
        ensures
            match var {
                Some(v) => match parse_u16(v@) {
                    Some(p) => r == Ok::<u16, SettingsError>(p),
                    None => r == Err::<u16, SettingsError>(SettingsError::Invalid),
                },
                None => r == Err::<u16, SettingsError>(SettingsError::Missing),
            },
    {
        match var {
            Some(v) => match parse_u16_text(v) {
                Some(p) => Ok(p),
                None => Err(SettingsError::Invalid),
            },
            None => Err(SettingsError::Missing),
        }
    }

    /// The path of the TLS certificate: the variable as it is.
    pub fn tls_cert(var: Option<String>) -> (r: Result<String, SettingsError>)
        ensures
            match var {
                Some(v) => r matches Ok(s) && s == v,
                None => r == Err::<String, SettingsError>(SettingsError::Missing),
            },
    {
        Self::log4rs(var)
    }

    /// The path of the TLS key: the variable as it is.
    pub fn tls_key(var: Option<String>) -> (r: Result<String, SettingsError>)
        ensures
            match var {
                Some(v) => r matches Ok(s) && s == v,
                None => r == Err::<String, SettingsError>(SettingsError::Missing),
            },
    {
        Self::log4rs(var)
    }
}

fn parse_bool_text(s: &str) -> (b: Option<bool>)
    ensures
        b == parse_bool(s@),
{
    let t = "true";
    let f = "false";
    proof {
        reveal_strlit("true");
        reveal_strlit("false");
        assert(t@ =~= seq!['t', 'r', 'u', 'e']);
        assert(f@ =~= seq!['f', 'a', 'l', 's', 'e']);
    }
    if same_text(s, t) {
        Some(true)
    } else if same_text(s, f) {
        Some(false)
    } else {
        None
    }
}

fn parse_u16_text(s: &str) -> (p: Option<u16>)
    ensures
        p == parse_u16(s@),
{
    let n = s.unicode_len();
    let start: usize = if n > 0 && s.get_char(0) == '+' {
        1
    } else {
        0
    };
    let ghost d = digits_of(s@);
    assert(d =~= s@.skip(start as int));
    if start == n {
        return None;
    }
    let mut value: u32 = 0;
    let mut i: usize = start;
    while i < n
        invariant
            n == s@.len(),
            start <= i <= n,
            d == s@.skip(start as int),
            d == digits_of(s@),
            forall|k: int| start <= k < i ==> is_digit(s@[k]),
            value == decimal(s@.subrange(start as int, i as int)),
            value <= u16::MAX,
        decreases n - i,
    {
        let c = s.get_char(i);
        if !('0' <= c && c <= '9') {
            assert(!is_digit(d[i - start]));
            return None;
        }
        let digit = (c as u32) - ('0' as u32);
        proof {
            assert(s@.subrange(start as int, i + 1).drop_last() =~= s@.subrange(start as int, i as int));
        }
        value = value * 10 + digit;
        if value > 65535 {
            proof {
                if forall|k: int| 0 <= k < d.len() ==> is_digit(#[trigger] d[k]) {
                    lemma_decimal_prefix(d, (i + 1 - start) as nat);
                    assert(d.take(i + 1 - start) =~= s@.subrange(start as int, i + 1));
                }
            }
            return None;
        }
        i = i + 1;
    }
    assert(s@.subrange(start as int, n as int) =~= d);
    assert forall|k: int| 0 <= k < d.len() implies is_digit(#[trigger] d[k]) by {
        assert(d[k] == s@[k + start]);
    }
    Some(value as u16)
}

/// A number written by more digits is no smaller than one written by a
/// prefix of them.
proof fn lemma_decimal_prefix(d: Seq<char>, j: nat)
    requires
        j <= d.len(),
        forall|i: int| 0 <= i < d.len() ==> is_digit(#[trigger] d[i]),
    ensures
        decimal(d.take(j as int)) <= decimal(d),
    decreases d.len(),
{
    if j < d.len() {
        assert(d.drop_last().take(j as int) =~= d.take(j as int));
        assert forall|i: int| 0 <= i < d.drop_last().len() implies is_digit(
            #[trigger] d.drop_last()[i],
        ) by {
            assert(is_digit(d[i]));
        }
        lemma_decimal_prefix(d.drop_last(), j);
        lemma_decimal_nonneg(d.drop_last());
        assert(is_digit(d[d.len() - 1]));
    } else {
        assert(d.take(j as int) =~= d);
    }
}

proof fn lemma_decimal_nonneg(d: Seq<char>)
    requires
        forall|i: int| 0 <= i < d.len() ==> is_digit(#[trigger] d[i]),
    ensures
        decimal(d) >= 0,
    decreases d.len(),
{
    if d.len() > 0 {
        assert forall|i: int| 0 <= i < d.drop_last().len() implies is_digit(
            #[trigger] d.drop_last()[i],
        ) by {
            assert(is_digit(d[i]));
        }
        lemma_decimal_nonneg(d.drop_last());
        assert(is_digit(d[d.len() - 1]));
    }
}

} // verus!

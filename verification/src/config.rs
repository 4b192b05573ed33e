use crate::cli::Run;
use crate::errors::Error;
use crate::errors::ErrorKind;
use vstd::prelude::*;

verus! {

/// The earlier value wins; the later one fills a gap.
pub open spec fn first_or<T>(a: Option<T>, b: Option<T>) -> Option<T> {
    if a is Some {
        a
    } else {
        b
    }
}

/// One layer of configuration: any field may still be missing.
#[derive(Debug)]
pub struct PartialConfig {
    /// Path of the database file, as text.
    pub database: Option<String>,
    /// Listen address, as text; the surrounding program parses it.
    pub host: Option<String>,
    /// Listen port.
    pub port: Option<u16>,
}

impl Default for PartialConfig {
    /// The built-in defaults: local host, port 5599, no database path.
    fn default() -> (c: Self)
        ensures
            c.database is None,
            c.host matches Some(h) && h@ == "127.0.0.1"@,
            c.port == Some(5599u16),
    {
        PartialConfig { database: None, host: Some("127.0.0.1".to_owned()), port: Some(5599) }
    }
}

impl PartialConfig {
    /// The configuration a command line carries: the global database flag,
    /// plus host and port when the serve command was asked for.
    pub fn from_cli(database: Option<String>, run: Option<&Run>) -> (c: PartialConfig)
        ensures
            c.database == database,
            run matches Some(r) ==> c.host == r.host && c.port == r.port,
            run is None ==> c.host is None && c.port is None,
    {
        match run {
            Some(r) => {
                let host = match &r.host {
                    Some(h) => Some(h.clone()),
                    None => None,
                };
                PartialConfig { database, host, port: r.port }
            },
            None => PartialConfig { database, host: None, port: None },
        }
    }

    /// Field-wise layering: a present field of this layer wins over the
    /// other layer's.
    pub fn or(self, other: Self) -> (c: Self)
        ensures
            c.database == first_or(self.database, other.database),
            c.host == first_or(self.host, other.host),
            c.port == first_or(self.port, other.port),
    {
        let database = match self.database {
            Some(d) => Some(d),
            None => other.database,
        };
        let host = match self.host {
            Some(h) => Some(h),
            None => other.host,
        };
        let port = match self.port {
            Some(p) => Some(p),
            None => other.port,
        };
        PartialConfig { database, host, port }
    }

    /// The resolution order: command line over environment over
    /// configuration file over the built-in defaults.
    pub fn from_cli_or_env_or_file(cli: Self, env: Self, file: Self) -> (c: Self)
        ensures
            c.database == first_or(first_or(cli.database, env.database), file.database),
            ({
                let layered = first_or(first_or(cli.host, env.host), file.host);
                if layered is Some {
                    c.host == layered
                } else {
                    c.host matches Some(h) && h@ == "127.0.0.1"@
                }
            }),
            c.port == first_or(
                first_or(first_or(cli.port, env.port), file.port),
                Some(5599u16),
            ),
    {
        cli.or(env).or(file).or(PartialConfig::default())
    }
}

/// A decimal digit.
pub open spec fn is_ascii_digit(c: char) -> bool {
    '0' <= c && c <= '9'
}

/// The numeric value of a digit.
pub open spec fn digit_val(c: char) -> int {
    c as int - '0' as int
}

/// The number the digit run denotes, most significant digit first.
pub open spec fn digits_val(s: Seq<char>) -> int
    decreases s.len(),
{
    if s.len() == 0 {
        0
    } else {
        digits_val(s.drop_last()) * 10 + digit_val(s.last())
    }
}

/// Every character is a decimal digit.
pub open spec fn all_digits(s: Seq<char>) -> bool {
    forall|i: int| 0 <= i < s.len() ==> is_ascii_digit(#[trigger] s[i])
}

/// The digits of a port text: an optional leading plus sign is dropped.
pub open spec fn port_body(s: Seq<char>) -> Seq<char> {
    if s.len() > 0 && s[0] == '+' {
        s.drop_first()
    } else {
        s
    }
}

/// A well-formed port: a non-empty digit run, optionally signed with `+`,
/// denoting a number up to 65535.
pub open spec fn is_port_text(s: Seq<char>) -> bool {
    port_body(s).len() > 0 && all_digits(port_body(s)) && digits_val(port_body(s)) <= 65535
}

/// A digit run is worth no less than any of its prefixes, and never less
/// than zero.
proof fn lemma_digits_val_prefix_le(s: Seq<char>, i: int)
    requires
        all_digits(s),
        0 <= i <= s.len(),
    ensures
        0 <= digits_val(s.take(i)),
        digits_val(s.take(i)) <= digits_val(s),
    decreases s.len(),
{
    if s.len() == 0 {
        assert(s.take(i) =~= s);
    } else if i == s.len() {
        assert(s.take(i) =~= s);
        let dl = s.drop_last();
        assert(forall|k: int| 0 <= k < dl.len() ==> dl[k] == s[k]);
        lemma_digits_val_prefix_le(dl, dl.len() as int);
        assert(dl.take(dl.len() as int) =~= dl);
        assert(is_ascii_digit(s.last()));
    } else {
        let dl = s.drop_last();
        assert(forall|k: int| 0 <= k < dl.len() ==> dl[k] == s[k]);
        assert(s.take(i) =~= dl.take(i));
        lemma_digits_val_prefix_le(dl, i);
        lemma_digits_val_prefix_le(dl, dl.len() as int);
        assert(dl.take(dl.len() as int) =~= dl);
        assert(is_ascii_digit(s.last()));
    }
}

/// Parse a listen port as the standard library would accept it: an
/// optional leading `+`, then decimal digits, the value at most 65535.
pub fn parse_port(s: &str) -> (r: Option<u16>)
    ensures
        match r {
            Some(p) => is_port_text(s@) && p == digits_val(port_body(s@)),
            None => !is_port_text(s@),
        },
{
    let n = s.unicode_len();
    if n == 0 {
        return None;
    }
    let start: usize = if s.get_char(0) == '+' {
        1
    } else {
        0
    };
    if start == n {
        return None;
    }
    let ghost body = port_body(s@);
    proof {
        if start == 1 {
            assert(body =~= s@.drop_first());
        } else {
            assert(body =~= s@);
        }
        assert(body.take(0) =~= Seq::<char>::empty());
    }
    let mut acc: u32 = 0;
    let mut i: usize = start;
    while i < n
        invariant
            n == s@.len(),
            start <= i <= n,
            start == 0 || start == 1,
            start == 1 ==> s@.len() > 0 && s@[0] == '+',
            body == port_body(s@),
            body.len() == n - start,
            forall|k: int| 0 <= k < body.len() ==> body[k] == s@[start + k],
            forall|k: int| 0 <= k < i - start ==> is_ascii_digit(#[trigger] body[k]),
            acc <= 65535,
            acc == digits_val(body.take(i - start)),
        decreases n - i,
    {
        let c = s.get_char(i);
        let cu = c as u32;
        proof {
            assert(body[i - start] == c);
        }
        if cu < 48 || cu > 57 {
            proof {
                assert(!is_ascii_digit(c));
            }
            return None;
        }
        let d = cu - 48;
        proof {
            assert(body.take(i - start + 1).drop_last() =~= body.take(i - start));
            assert(body.take(i - start + 1).last() == body[i - start]);
            assert(digit_val(c) == d as int);
        }
        let next = acc * 10 + d;
        if next > 65535 {
            proof {
                assert(digits_val(body.take(i - start + 1)) == next as int);
                if all_digits(body) {
                    lemma_digits_val_prefix_le(body, i - start + 1);
                }
            }
            return None;
        }
        acc = next;
        i = i + 1;
    }
    proof {
        assert(body.take(body.len() as int) =~= body);
    }
    Some(acc as u16)
}

/// A complete configuration: every field settled.
#[derive(Debug)]
pub struct Config {
    /// Path of the database file, as text.
    pub database: String,
    /// Listen address, as text; the surrounding program parses it.
    pub host: String,
    /// Listen port.
    pub port: u16,
}

impl Config {
    /// Validate a layered configuration: every field must have been
    /// settled; the first missing one — database, then host, then port —
    /// names the failure.
    pub fn try_new(partial: PartialConfig) -> (r: Result<Config, Error>)
        ensures
            partial.database is None ==> (r matches Err(e) && e.kind
                == ErrorKind::InvalidConfiguration && e.context.deep_view() == seq![
                "Database path is required in the configuration"@,
            ]),
            partial.database is Some && partial.host is None ==> (r matches Err(e) && e.kind
                == ErrorKind::InvalidConfiguration && e.context.deep_view() == seq![
                "Host is required in the configuration"@,
            ]),
            partial.database is Some && partial.host is Some && partial.port is None ==> (r
                matches Err(e) && e.kind == ErrorKind::InvalidConfiguration
                && e.context.deep_view() == seq!["Port is required in the configuration"@]),
            partial.database is Some && partial.host is Some && partial.port is Some ==> (r
                matches Ok(c) && Some(c.database) == partial.database && Some(c.host)
                == partial.host && Some(c.port) == partial.port),
    {
        let database = match partial.database {
            Some(d) => d,
            None => {
                let e = Error::new(ErrorKind::InvalidConfiguration).attach(
                    "Database path is required in the configuration",
                );
                proof {
                    assert(e.context.deep_view() =~= seq![
                        "Database path is required in the configuration"@,
                    ]);
                }
                return Err(e);
            },
        };
        let host = match partial.host {
            Some(h) => h,
            None => {
                let e = Error::new(ErrorKind::InvalidConfiguration).attach(
                    "Host is required in the configuration",
                );
                proof {
                    assert(e.context.deep_view() =~= seq![
                        "Host is required in the configuration"@,
                    ]);
                }
                return Err(e);
            },
        };
        let port = match partial.port {
            Some(p) => p,
            None => {
                let e = Error::new(ErrorKind::InvalidConfiguration).attach(
                    "Port is required in the configuration",
                );
                proof {
                    assert(e.context.deep_view() =~= seq![
                        "Port is required in the configuration"@,
                    ]);
                }
                return Err(e);
            },
        };
        Ok(Config { database, host, port })
    }
}

} // verus!

//! Reading the configuration: a JSON object with members `ollama-host` and
//! `ollama-port`, either of which may be missing.

use vstd::prelude::*;
use crate::json::{parsed, member, integer_of, string_member, parse_json, get_member, as_text, as_integer};
use crate::text::{chars_of, signed_decimal, signed_decimal_of, parse_u16, parse_u16_of};

verus! {

/// The host of a configuration, `127.0.0.1` where it names none as a string.
pub open spec fn config_host_of(v: serde_json::Value) -> Seq<char> {
    match string_member(v, "ollama-host"@) {
        Some(h) => h,
        None => "127.0.0.1"@,
    }
}

/// The port of a configuration, 11434 where it names none as an integer.
pub open spec fn config_port_of(v: serde_json::Value) -> int {
    match member(v, "ollama-port"@) {
        Some(m) => match integer_of(m) {
            Some(p) => p as int,
            None => 11434,
        },
        None => 11434,
    }
}

/// The `host:port` target that a configuration text names, or `None` where
/// the text is no JSON.
pub open spec fn config_target_of(text: Seq<char>) -> Option<Seq<char>> {
    match parsed(text) {
        Some(v) => Some(config_host_of(v) + seq![':'] + signed_decimal_of(config_port_of(v))),
        None => None,
    }
}

/// Whether `i` is the index of the one colon of `s`.
pub open spec fn only_colon_at(s: Seq<char>, i: int) -> bool {
    &&& 0 <= i < s.len()
    &&& s[i] == ':'
    &&& forall|j: int| 0 <= j < s.len() && j != i ==> #[trigger] s[j] != ':'
}

/// A `host:port` target split into host and port: it holds exactly one colon,
/// and a port that `str::parse::<u16>` accepts follows it.
pub open spec fn host_port_pair_of(s: Seq<char>) -> Option<(Seq<char>, u16)> {
    if exists|i: int| only_colon_at(s, i) {
        let i = choose|i: int| only_colon_at(s, i);
        match parse_u16_of(s.subrange(i + 1, s.len() as int)) {
            Some(p) => Some((s.subrange(0, i), p)),
            None => None,
        }
    } else {
        None
    }
}

/// The `host:port` target that the configuration text `contents` names;
/// `None` where the text is no JSON.
pub fn read_host_port_from_config(contents: &str) -> (r: Option<String>)
    ensures
        match r {
            Some(t) => config_target_of(contents@) == Some(t@),
            None => config_target_of(contents@).is_none(),
        },
{
    match parse_json(contents) {
        Some(v) => {
            let host = match get_member(&v, "ollama-host") {
                Some(m) => as_text(m),
                None => None,
            };
            let port: i64 = match get_member(&v, "ollama-port") {
                Some(m) => match as_integer(m) {
                    Some(p) => p,
                    None => 11434,
                },
                None => 11434,
            };
            let mut r = match host {
                Some(h) => String::from_str(h),
                None => String::from_str("127.0.0.1"),
            };
            r.append(":");
            proof {
                reveal_strlit(":");
            }
            let d = signed_decimal(port);
            r.append(d.as_str());
            Some(r)
        },
        None => None,
    }
}

/// Splits a `host:port` target into its host and its port.
pub fn host_port_pair(hp: &str) -> (r: Option<(String, u16)>)
    ensures
        match r {
            Some((h, p)) => host_port_pair_of(hp@) == Some((h@, p)),
            None => host_port_pair_of(hp@).is_none(),
        },
{
    let cs = chars_of(hp);
    let n = cs.len();
    let mut count: usize = 0;
    let mut first: usize = 0;
    let mut i: usize = 0;
    while i < n
        invariant
            n == cs@.len(),
            cs@ == hp@,
            i <= n,
            count <= i,
            count == 0 ==> forall|j: int| 0 <= j < i ==> #[trigger] cs@[j] != ':',
            count >= 1 ==> first < i && cs@[first as int] == ':',
            count == 1 ==> forall|j: int| 0 <= j < i && j != first ==> #[trigger] cs@[j] != ':',
            count >= 2 ==> exists|j: int| 0 <= j < i && j != first && #[trigger] cs@[j] == ':',
        decreases n - i,
    {
        if cs[i] == ':' {
            if count == 0 {
                first = i;
            } else {
                assert(cs@[i as int] == ':' && i != first);
            }
            count = count + 1;
        }
        i = i + 1;
    }
    if count != 1 {
        assert(!exists|k: int| only_colon_at(hp@, k)) by {
            if count >= 2 {
                let j = choose|j: int| 0 <= j < n && j != first && #[trigger] cs@[j] == ':';
                assert forall|k: int| !only_colon_at(hp@, k) by {
                    if only_colon_at(hp@, k) {
                        if k == first as int {
                            assert(hp@[j] != ':');
                        } else {
                            assert(hp@[first as int] != ':');
                        }
                    }
                }
            } else {
                assert forall|k: int| !only_colon_at(hp@, k) by {
                    if 0 <= k < n {
                        assert(cs@[k] != ':');
                    }
                }
            }
        }
        return None;
    }
    assert(only_colon_at(hp@, first as int));
    proof {
        let k = choose|k: int| only_colon_at(hp@, k);
        if k != first as int {
            assert(hp@[k] != ':');
        }
    }
    let host = hp.substring_char(0, first);
    let rest = hp.substring_char(first + 1, n);
    match parse_u16(rest) {
        Some(p) => Some((String::from_str(host), p)),
        None => None,
    }
}

/// The host and port that the configuration text `contents` names, where
/// its `host:port` target splits into a host and a port.
pub fn config_host_and_port(contents: &str) -> (r: Option<(String, u16)>)
    ensures
        match r {
            Some((h, p)) => config_target_of(contents@) matches Some(t)
                && host_port_pair_of(t) == Some((h@, p)),
            None => match config_target_of(contents@) {
                Some(t) => host_port_pair_of(t).is_none(),
                None => true,
            },
        },
{
    match read_host_port_from_config(contents) {
        Some(t) => host_port_pair(t.as_str()),
        None => None,
    }
}

} // verus!

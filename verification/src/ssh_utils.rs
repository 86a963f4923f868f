//! Reverse-tunnel client support: the exact invocation handed to the tunnel
//! binary, and the incremental scanner that watches its streamed output for
//! the assigned public URL or a broker error token.
use vstd::prelude::*;
use vstd::string::*;

use crate::strutil::{
    first_occurrence, i32_to_string, is_dec_digit, spec_dec_i64, str_to_chars,
    chars_to_string, find_first,
};

verus! {

#[derive(Debug, Clone, PartialEq)]
pub struct SshConfig {
    pub binary_file: String,
    pub key_file: String,
    pub service_user: String,
    pub service_host: String,
    pub tunnel_input_port: i32,
    pub tunnel_setup_timeout_sec: u64,
    pub tunnel_timeout_sec: u64,
    pub tunnel_refresh_period_sec: u64,
}

/// Argument list for the reverse-tunnel client: identity key, the reverse
/// forward from the broker's input port back to the application's address,
/// the broker account, and the broker-side protocol.
pub fn ssh_tunnel_args(config: &SshConfig, output_host: &str, output_port: i32) -> (r: Vec<
    String,
>)
    ensures
        r@.len() == 7,
        r@[0]@ == "-y"@,
        r@[1]@ == "-i"@,
        r@[2]@ == config.key_file@,
        r@[3]@ == "-R"@,
        r@[4]@ == spec_dec_i64(config.tunnel_input_port as int) + ":"@ + output_host@ + ":"@
            + spec_dec_i64(output_port as int),
        r@[5]@ == config.service_user@ + "@"@ + config.service_host@,
        r@[6]@ == "http"@,
{
    let mut forward: String = i32_to_string(config.tunnel_input_port);
    forward.append(":");
    forward.append(output_host);
    forward.append(":");
    let port_text: String = i32_to_string(output_port);
    forward.append(port_text.as_str());
    let mut account: String = config.service_user.clone();
    account.append("@");
    account.append(config.service_host.as_str());
    let mut v: Vec<String> = Vec::new();
    v.push(String::from_str("-y"));
    v.push(String::from_str("-i"));
    v.push(config.key_file.clone());
    v.push(String::from_str("-R"));
    v.push(forward);
    v.push(account);
    v.push(String::from_str("http"));
    v
}

// ---------------------------------------------------------------------------
// Output scanning
// ---------------------------------------------------------------------------
/// What one look at the accumulated process output yields.
#[derive(Debug, Clone, PartialEq)]
pub enum TunnelScan {
    /// The broker assigned this public URL.
    Url(String),
    /// The broker rejected the tunnel with this error token.
    ServiceError(String),
    /// Nothing conclusive yet; keep reading.
    NoMatch,
}

pub open spec fn is_word_char(c: char) -> bool {
    is_dec_digit(c) || ('a' <= c && c <= 'z') || ('A' <= c && c <= 'Z') || c == '_'
}

/// End of the run of word characters starting at `i`.
pub open spec fn word_run_end(s: Seq<char>, i: int) -> int
    decreases s.len() - i,
{
    if 0 <= i < s.len() && is_word_char(s[i]) {
        word_run_end(s, i + 1)
    } else {
        i
    }
}

/// The URL the success line carries: the non-empty remainder, up to the next
/// line break, of the first line announcing a forward.
pub open spec fn spec_forwarding_capture(s: Seq<char>) -> Option<Seq<char>> {
    match first_occurrence(s, "Forwarding  "@, 0) {
        None => None,
        Some(h) => {
            let start = h + "Forwarding  "@.len() as int;
            match first_occurrence(s, "\n"@, start) {
                None => None,
                Some(e) => if e > start {
                    Some(s.subrange(start, e))
                } else {
                    None
                },
            }
        },
    }
}

/// The broker error token: the first `ERR_` marker together with the
/// non-empty run of word characters that follows it.
pub open spec fn spec_error_capture(s: Seq<char>) -> Option<Seq<char>> {
    match first_occurrence(s, "ERR_"@, 0) {
        None => None,
        Some(h) => {
            let e = word_run_end(s, h + 4);
            if e > h + 4 {
                Some(s.subrange(h, e))
            } else {
                None
            }
        },
    }
}

proof fn lemma_word_run_end_at(s: Seq<char>, i: int, e: int)
    requires
        0 <= i <= e <= s.len(),
        forall|j: int| i <= j < e ==> is_word_char(s[j]),
        e == s.len() || !is_word_char(s[e]),
    ensures
        word_run_end(s, i) == e,
    decreases e - i,
{
    if i < e {
        lemma_word_run_end_at(s, i + 1, e);
    }
}

/// One look at the accumulated output of the tunnel process: the success line
/// wins over an error token; anything else asks the caller to keep reading.
#[verifier::loop_isolation(false)]
pub fn scan_tunnel_output(buffer: &str) -> (r: TunnelScan)
    ensures
        match spec_forwarding_capture(buffer@) {
            Some(u) => r matches TunnelScan::Url(t) && t@ == u,
            None => match spec_error_capture(buffer@) {
                Some(m) => r matches TunnelScan::ServiceError(t) && t@ == m,
                None => r is NoMatch,
            },
        },
{
    let s: Vec<char> = str_to_chars(buffer);
    let n: usize = s.len();
    let marker: Vec<char> = str_to_chars("Forwarding  ");
    let newline: Vec<char> = str_to_chars("\n");
    proof {
        reveal_strlit("Forwarding  ");
        reveal_strlit("\n");
    }
    if let Some(h) = find_first(&s, &marker, 0) {
        let start: usize = h + marker.len();
        if let Some(e) = find_first(&s, &newline, start) {
            if e > start {
                let mut url: Vec<char> = Vec::new();
                let mut i: usize = start;
                while i < e
                    invariant
                        start <= i <= e,
                        e <= s@.len(),
                        url@ == s@.subrange(start as int, i as int),
                    decreases e - i,
                {
                    url.push(s[i]);
                    proof {
                        assert(s@.subrange(start as int, i as int).push(s@[i as int])
                            =~= s@.subrange(start as int, i as int + 1));
                    }
                    i = i + 1;
                }
                return TunnelScan::Url(chars_to_string(&url));
            }
        }
        return scan_error_token(&s);
    }
    scan_error_token(&s)
}

#[verifier::loop_isolation(false)]
fn scan_error_token(s: &Vec<char>) -> (r: TunnelScan)
    ensures
        match spec_error_capture(s@) {
            Some(m) => r matches TunnelScan::ServiceError(t) && t@ == m,
            None => r is NoMatch,
        },
{
    let err_marker: Vec<char> = str_to_chars("ERR_");
    proof {
        reveal_strlit("ERR_");
    }
    let n: usize = s.len();
    if let Some(h) = find_first(s, &err_marker, 0) {
        let start: usize = h + 4;
        let mut e: usize = start;
        while e < n && is_word(s[e])
            invariant
                start <= e <= n,
                n == s@.len(),
                forall|j: int| start <= j < e ==> is_word_char(s@[j]),
            decreases n - e,
        {
            e = e + 1;
        }
        proof {
            lemma_word_run_end_at(s@, start as int, e as int);
        }
        if e > start {
            let mut token: Vec<char> = Vec::new();
            let mut i: usize = h;
            while i < e
                invariant
                    h <= i <= e,
                    e <= s@.len(),
                    token@ == s@.subrange(h as int, i as int),
                decreases e - i,
            {
                token.push(s[i]);
                proof {
                    assert(s@.subrange(h as int, i as int).push(s@[i as int]) =~= s@.subrange(
                        h as int,
                        i as int + 1,
                    ));
                }
                i = i + 1;
            }
            return TunnelScan::ServiceError(chars_to_string(&token));
        }
        return TunnelScan::NoMatch;
    }
    TunnelScan::NoMatch
}

fn is_word(c: char) -> (r: bool)
    ensures
        r == is_word_char(c),
{
    (c >= '0' && c <= '9') || (c >= 'a' && c <= 'z') || (c >= 'A' && c <= 'Z') || c == '_'
}

} // verus!

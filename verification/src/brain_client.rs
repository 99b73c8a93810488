//! Finding and invoking the agent-brain binary.

use vstd::prelude::*;
use vstd::string::*;

use crate::text::{
    decimal, join_path, path_join, push_decimal, str_chars, string_from_chars, string_views, trim,
    trim_chars,
};

verus! {

/// A handle on the agent-brain binary, when one was found.
#[derive(Debug, Clone)]
pub struct BrainHandle {
    binary: Option<String>,
}

impl BrainHandle {
    /// The binary this handle runs, if any.
    pub closed spec fn binary_view(&self) -> Option<Seq<char>> {
        match &self.binary {
            Some(b) => Some(b@),
            None => None,
        }
    }

    /// A handle on the given binary, or on none.
    pub fn with_binary(binary: Option<String>) -> (h: BrainHandle)
        ensures
            h.binary_view() == match binary {
                Some(b) => Some(b@),
                None => None,
            },
    {
        BrainHandle { binary }
    }

    /// The binary this handle runs, if any.
    pub fn binary(&self) -> (b: Option<&String>)
        ensures
            match b {
                Some(s) => self.binary_view() == Some(s@),
                None => self.binary_view() is None,
            },
    {
        match &self.binary {
            Some(s) => Some(s),
            None => None,
        }
    }

    /// The command line of a garbage-collection pass: the binary, then
    /// `gc --min-confidence <min_confidence> --max-age-days <max_age_days>`;
    /// an error when no binary was found.
    pub fn gc_command(&self, min_confidence: &str, max_age_days: u64) -> (cmd: Result<
        Vec<String>,
        String,
    >)
        ensures
            match cmd {
                Ok(v) => self.binary_view() matches Some(b) && string_views(v@) == gc_command_line(
                    b,
                    min_confidence@,
                    max_age_days,
                ),
                Err(e) => self.binary_view() is None && e@ == "agent-brain binary not found"@,
            },
    {
        match &self.binary {
            None => Err(String::from_str("agent-brain binary not found")),
            Some(b) => {
                let mut v: Vec<String> = Vec::new();
                v.push(b.clone());
                v.push(String::from_str("gc"));
                v.push(String::from_str("--min-confidence"));
                v.push(String::from_str(min_confidence));
                v.push(String::from_str("--max-age-days"));
                let mut days = String::new();
                push_decimal(&mut days, max_age_days);
                v.push(days);
                proof {
                    assert(string_views(v@) =~= gc_command_line(b@, min_confidence@, max_age_days));
                }
                Ok(v)
            },
        }
    }
}

#[verifier::external_type_specification]
#[verifier::external_body]
pub struct ExJsonValue(serde_json::Value);

#[verifier::external_type_specification]
#[verifier::external_body]
pub struct ExJsonError(serde_json::Error);

/// The bytes are one JSON value, as `serde_json` reads them (surrounding whitespace
/// allowed, nothing else after the value).
pub uninterp spec fn json_parses(bytes: Seq<u8>) -> bool;

/// The JSON value that the bytes hold.
///
/// Trusted: calls `serde_json::from_slice` into a `serde_json::Value`. Claimed: success
/// depends on the bytes alone (`json_parses`); what the value holds is not claimed.
#[verifier::external_body]
fn parse_json(bytes: &[u8]) -> (r: Result<serde_json::Value, serde_json::Error>)
    ensures
        r is Ok <==> json_parses(bytes@),
{
    serde_json::from_slice(bytes)
}

/// The message of a JSON error.
///
/// Trusted: calls `serde_json::Error`'s `to_string`. Nothing is claimed of the text.
#[verifier::external_body]
fn json_error_text(e: &serde_json::Error) -> String {
    e.to_string()
}

/// Why a garbage-collection pass that exited unsuccessfully failed.
pub open spec fn gc_exit_message(status: Seq<char>, stderr: Seq<char>) -> Seq<char> {
    "agent-brain gc exited with "@ + status + ": "@ + stderr
}

/// The outcome of a finished garbage-collection pass: the statistics it printed on
/// standard output as JSON, or why it failed. `status` is the exit status as text,
/// `stderr` what it printed on standard error.
pub fn gc_outcome(success: bool, status: &str, stdout: &[u8], stderr: &str) -> (r: Result<
    serde_json::Value,
    String,
>)
    ensures
        !success ==> (r matches Err(e) && e@ == gc_exit_message(status@, stderr@)),
        success ==> (r is Ok <==> json_parses(stdout@)),
{
    if !success {
        let mut message = String::from_str("agent-brain gc exited with ");
        message.append(status);
        message.append(": ");
        message.append(stderr);
        return Err(message);
    }
    match parse_json(stdout) {
        Ok(v) => Ok(v),
        Err(e) => Err(json_error_text(&e)),
    }
}

/// The command line of a garbage-collection pass.
pub open spec fn gc_command_line(binary: Seq<char>, min_confidence: Seq<char>, max_age_days: u64) -> Seq<
    Seq<char>,
> {
    seq![
        binary,
        "gc"@,
        "--min-confidence"@,
        min_confidence,
        "--max-age-days"@,
        decimal(max_age_days as nat),
    ]
}

/// The well-known install locations of a binary.
pub open spec fn standard_locations(name: Seq<char>) -> Seq<Seq<char>> {
    seq!["/usr/local/bin/"@ + name, "/opt/homebrew/bin/"@ + name]
}

/// Where to look first for a binary: the configured path, then the well-known locations.
pub open spec fn fixed_candidates(configured: Option<Seq<char>>, name: Seq<char>) -> Seq<Seq<char>> {
    match configured {
        Some(p) => seq![p] + standard_locations(name),
        None => standard_locations(name),
    }
}

/// Where to look first for a binary: the configured path, then the well-known locations.
pub fn binary_candidates(configured: Option<&str>, name: &str) -> (c: Vec<String>)
    ensures
        string_views(c@) == fixed_candidates(
            match configured {
                Some(p) => Some(p@),
                None => None,
            },
            name@,
        ),
{
    let mut c: Vec<String> = Vec::new();
    match configured {
        Some(p) => c.push(String::from_str(p)),
        None => {},
    }
    let mut a = String::from_str("/usr/local/bin/");
    a.append(name);
    c.push(a);
    let mut b = String::from_str("/opt/homebrew/bin/");
    b.append(name);
    c.push(b);
    proof {
        assert(string_views(c@) =~= fixed_candidates(
            match configured {
                Some(p) => Some(p@),
                None => None,
            },
            name@,
        ));
    }
    c
}

/// The path that `which` printed, trimmed; none when blank.
pub open spec fn which_path(stdout: Seq<char>) -> Option<Seq<char>> {
    if trim(stdout).len() == 0 {
        None
    } else {
        Some(trim(stdout))
    }
}

/// The path that `which` printed, trimmed; none when blank.
pub fn which_candidate(stdout: &str) -> (p: Option<String>)
    ensures
        match p {
            Some(s) => which_path(stdout@) == Some(s@),
            None => which_path(stdout@) is None,
        },
{
    let t = trim_chars(&str_chars(stdout));
    if t.len() == 0 {
        None
    } else {
        Some(string_from_chars(&t))
    }
}

/// The per-user install locations of a binary under a home directory.
pub open spec fn home_locations(home: Seq<char>, name: Seq<char>) -> Seq<Seq<char>> {
    seq![path_join(home, ".cargo/bin/"@ + name), path_join(home, ".local/bin/"@ + name)]
}

/// The per-user install locations of a binary under a home directory.
pub fn home_candidates(home: &str, name: &str) -> (c: Vec<String>)
    ensures
        string_views(c@) == home_locations(home@, name@),
{
    let mut cargo = String::from_str(".cargo/bin/");
    cargo.append(name);
    let mut local = String::from_str(".local/bin/");
    local.append(name);
    let mut c: Vec<String> = Vec::new();
    c.push(join_path(home, cargo.as_str()));
    c.push(join_path(home, local.as_str()));
    proof {
        assert(string_views(c@) =~= home_locations(home@, name@));
    }
    c
}

} // verus!

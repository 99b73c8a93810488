//! Lints bash scripts: risky commands, hard-coded secrets and overlong lines.
//!
//! The script is parsed with tree-sitter's bash grammar; its syntax nodes, taken in
//! depth-first pre-order, are checked one by one.

use vstd::prelude::*;
use vstd::string::*;
use vstd::utf8::*;

use crate::text::{
    chars_contain, chars_start_with, contains, decimal, lowercase, push_decimal, starts_with,
    str_chars, string_from_chars, string_views, to_lowercase, trim, trim_chars,
};

verus! {

/// How serious a finding is.
#[derive(Debug, Clone, Copy, PartialEq, Eq, Structural)]
pub enum Severity {
    Error,
    Warning,
    Info,
}

/// One finding in a script.
#[derive(Debug, Clone)]
pub struct LintIssue {
    /// Line number, counted from one.
    pub line: usize,
    pub severity: Severity,
    pub message: String,
    /// The offending text, possibly shortened.
    pub snippet: Option<String>,
}

/// The abstract content of a finding.
pub struct IssueView {
    pub line: usize,
    pub severity: Severity,
    pub message: Seq<char>,
    pub snippet: Option<Seq<char>>,
}

impl View for LintIssue {
    type V = IssueView;

    open spec fn view(&self) -> IssueView {
        IssueView {
            line: self.line,
            severity: self.severity,
            message: self.message@,
            snippet: match &self.snippet {
                Some(s) => Some(s@),
                None => None,
            },
        }
    }
}

/// The abstract content of a list of findings.
pub open spec fn issue_views(issues: Seq<LintIssue>) -> Seq<IssueView> {
    issues.map_values(|i: LintIssue| i@)
}

/// A syntax node of a parsed script: its grammar kind, the row it starts on (from zero)
/// and the byte range of the script it spans.
#[derive(Debug, Clone)]
pub struct SyntaxNode {
    pub kind: String,
    pub start_row: usize,
    pub start_byte: usize,
    pub end_byte: usize,
}

/// The UTF-8 bytes of a script.
pub open spec fn script_bytes(source: Seq<char>) -> Seq<u8> {
    encode_utf8(source)
}

/// The node spans a whole number of characters of the script and its line number
/// can be counted.
pub open spec fn node_in_script(source: Seq<char>, n: SyntaxNode) -> bool {
    let b = script_bytes(source);
    &&& n.start_byte <= n.end_byte <= b.len()
    &&& is_char_boundary(b, n.start_byte as int)
    &&& is_char_boundary(b, n.end_byte as int)
    &&& n.start_row < usize::MAX
}

/// The bytes a node spans.
pub open spec fn node_bytes(source: Seq<char>, n: SyntaxNode) -> Seq<u8> {
    script_bytes(source).subrange(n.start_byte as int, n.end_byte as int)
}

/// A finding.
pub open spec fn issue(
    line: usize,
    severity: Severity,
    message: Seq<char>,
    snippet: Seq<char>,
) -> IssueView {
    IssueView { line, severity, message, snippet: Some(snippet) }
}

/// The finding for a recursive `rm`.
pub open spec fn rm_message() -> Seq<char> {
    "Use 'rm -rf' with caution. Consider adding --no-preserve-root for explicit intent."@
}

/// The finding for `eval`, `source` or `.`.
pub open spec fn dynamic_message() -> Seq<char> {
    "Dynamic execution (eval/source/.) can lead to code injection"@
}

/// The finding for `curl` or `wget`.
pub open spec fn download_message() -> Seq<char> {
    "Consider verifying HTTPS/TLS flags for curl/wget"@
}

/// The finding for a string that looks like a credential.
pub open spec fn secret_message() -> Seq<char> {
    "Possible hardcoded secret: avoid storing credentials in scripts"@
}

/// Findings of a `command` node with the given text on the given line.
pub open spec fn command_issues(text: Seq<char>, line: usize) -> Seq<IssueView> {
    let cmd = lowercase(text);
    let rm = if starts_with(cmd, "rm "@) && (contains(cmd, " -rf "@) || contains(cmd, " -r "@))
        && !contains(cmd, "--no-preserve-root"@) {
        seq![issue(line, Severity::Warning, rm_message(), text)]
    } else {
        seq![]
    };
    let dynamic = if starts_with(cmd, "eval "@) || starts_with(cmd, "source "@) || starts_with(
        cmd,
        ". "@,
    ) {
        seq![issue(line, Severity::Warning, dynamic_message(), text)]
    } else {
        seq![]
    };
    let download = if (starts_with(cmd, "curl "@) || starts_with(cmd, "wget "@)) && !contains(
        cmd,
        "--proto"@,
    ) && !contains(cmd, "--secure"@) {
        seq![issue(line, Severity::Info, download_message(), text)]
    } else {
        seq![]
    };
    rm + dynamic + download
}

/// The text mentions a credential.
pub open spec fn mentions_secret(text: Seq<char>) -> bool {
    let lower = lowercase(text);
    contains(lower, "password"@) || contains(lower, "secret"@) || contains(lower, "token"@)
        || contains(lower, "api_key"@)
}

/// Findings of a `string` or `raw_string` node spanning the given bytes, on the given line;
/// `None` where the shortened snippet would end inside a character.
pub open spec fn string_issues(bytes: Seq<u8>, line: usize) -> Option<Seq<IssueView>> {
    let text = decode_utf8(bytes);
    if mentions_secret(text) && bytes.len() > 10 {
        if bytes.len() > 40 {
            if is_char_boundary(bytes, 37) {
                Some(
                    seq![
                        issue(
                            line,
                            Severity::Warning,
                            secret_message(),
                            decode_utf8(bytes.subrange(0, 37)) + "..."@,
                        ),
                    ],
                )
            } else {
                None
            }
        } else {
            Some(seq![issue(line, Severity::Warning, secret_message(), text)])
        }
    } else {
        Some(seq![])
    }
}

/// Both parts, or `None` when either is.
pub open spec fn combine(a: Option<Seq<IssueView>>, b: Option<Seq<IssueView>>) -> Option<
    Seq<IssueView>,
> {
    match (a, b) {
        (Some(x), Some(y)) => Some(x + y),
        _ => None,
    }
}

/// A line without its carriage return, as `str::lines` drops it before a line feed.
pub open spec fn strip_cr(line: Seq<char>) -> Seq<char> {
    if line.len() > 0 && line.last() == '\r' {
        line.drop_last()
    } else {
        line
    }
}

/// The lines of `s` from the line that starts at `start`, scanning from `i`, as
/// `str::lines` splits them: at each line feed, dropping a carriage return before it;
/// a final line feed ends the last line without starting another.
pub open spec fn lines_from(s: Seq<char>, start: int, i: int) -> Seq<Seq<char>>
    decreases s.len() - i,
{
    if i >= s.len() {
        if 0 <= start < s.len() {
            seq![s.subrange(start, s.len() as int)]
        } else {
            seq![]
        }
    } else if i < 0 {
        seq![]
    } else if s[i] == '\n' {
        seq![strip_cr(s.subrange(start, i))] + lines_from(s, i + 1, i + 1)
    } else {
        lines_from(s, start, i + 1)
    }
}

/// The lines of a script.
pub open spec fn script_lines(s: Seq<char>) -> Seq<Seq<char>> {
    lines_from(s, 0, 0)
}

/// The finding for an overlong line, numbered from one; `None` where the shortened
/// snippet would end inside a character.
pub open spec fn long_line_issue(line: Seq<char>, number: int) -> Option<Seq<IssueView>> {
    let b = encode_utf8(line);
    if b.len() > 120 && trim(line).len() > 0 {
        if is_char_boundary(b, 77) {
            Some(
                seq![
                    issue(
                        number as usize,
                        Severity::Info,
                        "Line too long ("@ + decimal(b.len()) + " chars, max 120)"@,
                        decode_utf8(b.subrange(0, 77)) + "..."@,
                    ),
                ],
            )
        } else {
            None
        }
    } else {
        Some(seq![])
    }
}

/// Findings for the overlong lines among `lines`, the first numbered `number`.
pub open spec fn numbered_line_issues(lines: Seq<Seq<char>>, number: int) -> Option<
    Seq<IssueView>,
>
    decreases lines.len(),
{
    if lines.len() == 0 {
        Some(seq![])
    } else {
        combine(
            long_line_issue(lines[0], number),
            numbered_line_issues(lines.drop_first(), number + 1),
        )
    }
}

/// Findings for the overlong lines of a script.
pub open spec fn program_issues(source: Seq<char>) -> Option<Seq<IssueView>> {
    numbered_line_issues(script_lines(source), 1)
}

/// Findings of one node; `None` where the check would slice the script inside a character.
pub open spec fn node_issues(source: Seq<char>, n: SyntaxNode) -> Option<Seq<IssueView>> {
    if !node_in_script(source, n) {
        None
    } else {
        let bytes = node_bytes(source, n);
        let text = decode_utf8(bytes);
        let line = (n.start_row + 1) as usize;
        let kind = n.kind@;
        let commands = if kind == "command"@ {
            command_issues(text, line)
        } else {
            seq![]
        };
        let lines = if kind == "program"@ {
            program_issues(source)
        } else {
            Some(seq![])
        };
        let strings = if kind == "string"@ || kind == "raw_string"@ {
            string_issues(bytes, line)
        } else {
            Some(seq![])
        };
        combine(combine(Some(commands), lines), strings)
    }
}

/// Findings of the nodes, in order; `None` where a check would slice the script inside a
/// character.
pub open spec fn lint_result(source: Seq<char>, nodes: Seq<SyntaxNode>) -> Option<Seq<IssueView>>
    decreases nodes.len(),
{
    if nodes.len() == 0 {
        Some(seq![])
    } else {
        combine(lint_result(source, nodes.drop_last()), node_issues(source, nodes.last()))
    }
}

/// A character boundary of a valid sequence stays one in the suffix that starts at an
/// earlier boundary.
proof fn lemma_boundary_in_suffix(b: Seq<u8>, s: int, e: int)
    requires
        valid_utf8(b),
        0 <= s <= e <= b.len(),
        is_char_boundary(b, s),
        is_char_boundary(b, e),
    ensures
        valid_utf8(b.subrange(s, b.len() as int)),
        is_char_boundary(b.subrange(s, b.len() as int), e - s),
{
    valid_utf8_split(b, s);
    let r = b.subrange(s, b.len() as int);
    if e == b.len() {
        is_char_boundary_start_end_of_seq(r);
    } else {
        is_char_boundary_iff_not_is_continuation_byte(b, e);
        is_char_boundary_iff_not_is_continuation_byte(r, e - s);
    }
}

/// The text of a string between two character boundaries.
fn slice_between(source: &str, start: usize, end: usize) -> (t: &str)
    requires
        start <= end <= source.spec_bytes().len(),
        is_char_boundary(source.spec_bytes(), start as int),
        is_char_boundary(source.spec_bytes(), end as int),
    ensures
        t.spec_bytes() == source.spec_bytes().subrange(start as int, end as int),
        t@ == decode_utf8(source.spec_bytes().subrange(start as int, end as int)),
{
    proof {
        encode_utf8_valid_utf8(source@);
        lemma_boundary_in_suffix(source.spec_bytes(), start as int, end as int);
    }
    let (_, rest) = source.split_at(start);
    let (t, _) = rest.split_at(end - start);
    proof {
        assert(t.spec_bytes() =~= source.spec_bytes().subrange(start as int, end as int));
        encode_utf8_decode_utf8(t@);
    }
    t
}

/// A new string holding `s` followed by `...`.
fn with_ellipsis(s: &str) -> (r: String)
    ensures
        r@ == s@ + "..."@,
{
    let mut r = String::from_str(s);
    r.append("...");
    r
}

/// Findings of a `command` node.
fn check_command(text: &str, line: usize) -> (issues: Vec<LintIssue>)
    ensures
        issue_views(issues@) == command_issues(text@, line),
{
    let lower = to_lowercase(text);
    let cmd = str_chars(lower.as_str());
    let mut issues: Vec<LintIssue> = Vec::new();
    let rm = chars_start_with(&cmd, &str_chars("rm ")) && (chars_contain(&cmd, &str_chars(" -rf "))
        || chars_contain(&cmd, &str_chars(" -r "))) && !chars_contain(
        &cmd,
        &str_chars("--no-preserve-root"),
    );
    if rm {
        issues.push(
            LintIssue {
                line,
                severity: Severity::Warning,
                message: String::from_str(
                    "Use 'rm -rf' with caution. Consider adding --no-preserve-root for explicit intent.",
                ),
                snippet: Some(String::from_str(text)),
            },
        );
    }
    let ghost after_rm = issues@;
    let dynamic = chars_start_with(&cmd, &str_chars("eval ")) || chars_start_with(
        &cmd,
        &str_chars("source "),
    ) || chars_start_with(&cmd, &str_chars(". "));
    if dynamic {
        issues.push(
            LintIssue {
                line,
                severity: Severity::Warning,
                message: String::from_str(
                    "Dynamic execution (eval/source/.) can lead to code injection",
                ),
                snippet: Some(String::from_str(text)),
            },
        );
    }
    let ghost after_dynamic = issues@;
    let download = (chars_start_with(&cmd, &str_chars("curl ")) || chars_start_with(
        &cmd,
        &str_chars("wget "),
    )) && !chars_contain(&cmd, &str_chars("--proto")) && !chars_contain(
        &cmd,
        &str_chars("--secure"),
    );
    if download {
        issues.push(
            LintIssue {
                line,
                severity: Severity::Info,
                message: String::from_str("Consider verifying HTTPS/TLS flags for curl/wget"),
                snippet: Some(String::from_str(text)),
            },
        );
    }
    proof {
        assert(issue_views(issues@) =~= command_issues(text@, line));
    }
    issues
}

/// Findings of a `string` or `raw_string` node; `None` where the shortened snippet would
/// end inside a character.
fn check_string(text: &str, line: usize) -> (issues: Option<Vec<LintIssue>>)
    ensures
        match issues {
            Some(v) => string_issues(text.spec_bytes(), line) == Some(issue_views(v@)),
            None => string_issues(text.spec_bytes(), line) is None,
        },
{
    proof {
        encode_utf8_decode_utf8(text@);
    }
    let lower = str_chars(to_lowercase(text).as_str());
    let secret = chars_contain(&lower, &str_chars("password")) || chars_contain(
        &lower,
        &str_chars("secret"),
    ) || chars_contain(&lower, &str_chars("token")) || chars_contain(
        &lower,
        &str_chars("api_key"),
    );
    let mut issues: Vec<LintIssue> = Vec::new();
    let len = text.as_bytes().len();
    if secret && len > 10 {
        let snippet = if len > 40 {
            if !text.is_char_boundary(37) {
                return None;
            }
            let (head, _) = text.split_at(37);
            proof {
                assert(head.spec_bytes() =~= text.spec_bytes().subrange(0, 37));
                encode_utf8_decode_utf8(head@);
                assert(head@ == decode_utf8(text.spec_bytes().subrange(0, 37)));
            }
            with_ellipsis(head)
        } else {
            String::from_str(text)
        };
        issues.push(
            LintIssue {
                line,
                severity: Severity::Warning,
                message: String::from_str(
                    "Possible hardcoded secret: avoid storing credentials in scripts",
                ),
                snippet: Some(snippet),
            },
        );
    }
    proof {
        assert(decode_utf8(text.spec_bytes()) == text@);
        assert(secret == mentions_secret(text@));
        assert(issue_views(issues@) =~= string_issues(text.spec_bytes(), line)->0);
    }
    Some(issues)
}


/// The finding for one line, numbered `number`.
fn check_line(line: &Vec<char>, number: usize) -> (issues: Option<Vec<LintIssue>>)
    ensures
        match issues {
            Some(v) => long_line_issue(line@, number as int) == Some(issue_views(v@)),
            None => long_line_issue(line@, number as int) is None,
        },
{
    let text = string_from_chars(line);
    let s = text.as_str();
    let len = s.as_bytes().len();
    let blank = trim_chars(line).len() == 0;
    let mut issues: Vec<LintIssue> = Vec::new();
    if len > 120 && !blank {
        if !s.is_char_boundary(77) {
            return None;
        }
        let (head, _) = s.split_at(77);
        proof {
            assert(head.spec_bytes() =~= s.spec_bytes().subrange(0, 77));
            encode_utf8_decode_utf8(head@);
        }
        let mut message = String::from_str("Line too long (");
        push_decimal(&mut message, len as u64);
        message.append(" chars, max 120)");
        issues.push(
            LintIssue {
                line: number,
                severity: Severity::Info,
                message,
                snippet: Some(with_ellipsis(head)),
            },
        );
    }
    proof {
        assert(issue_views(issues@) =~= long_line_issue(line@, number as int)->0);
    }
    Some(issues)
}

/// The characters of `v` from `start` to `end`, without a carriage return at the end when
/// `strip` is set.
fn line_chars(v: &Vec<char>, start: usize, end: usize, strip: bool) -> (line: Vec<char>)
    requires
        start <= end <= v@.len(),
    ensures
        line@ == if strip {
            strip_cr(v@.subrange(start as int, end as int))
        } else {
            v@.subrange(start as int, end as int)
        },
{
    let stop = if strip && end > start && v[end - 1] == '\r' {
        end - 1
    } else {
        end
    };
    let mut line: Vec<char> = Vec::new();
    let mut k: usize = start;
    while k < stop
        invariant
            start <= k <= stop <= end <= v@.len(),
            line@ == v@.subrange(start as int, k as int),
        decreases stop - k,
    {
        line.push(v[k]);
        k = k + 1;
        proof {
            assert(line@ =~= v@.subrange(start as int, k as int));
        }
    }
    proof {
        if end > start {
            assert(v@.subrange(start as int, end as int).drop_last() =~= v@.subrange(
                start as int,
                end - 1,
            ));
        }
    }
    line
}

/// Findings for the overlong lines of a script.
fn check_program(source: &str) -> (issues: Option<Vec<LintIssue>>)
    ensures
        match issues {
            Some(v) => program_issues(source@) == Some(issue_views(v@)),
            None => program_issues(source@) is None,
        },
{
    let chars = str_chars(source);
    let n = chars.len();
    let mut issues: Vec<LintIssue> = Vec::new();
    let mut start: usize = 0;
    let mut done: usize = 0;
    let mut i: usize = 0;
    while i < n
        invariant
            n == chars@.len(),
            chars@ == source@,
            done <= start <= i <= n,
            combine(
                Some(issue_views(issues@)),
                numbered_line_issues(lines_from(source@, start as int, i as int), done + 1),
            ) == program_issues(source@),
        decreases n - i,
    {
        if chars[i] == '\n' {
            let line = line_chars(&chars, start, i, true);
            let ghost rest = lines_from(source@, i + 1, i + 1);
            proof {
                assert(lines_from(source@, start as int, i as int) == seq![line@] + rest);
                assert((seq![line@] + rest)[0] == line@);
                assert((seq![line@] + rest).drop_first() =~= rest);
            }
            match check_line(&line, done + 1) {
                None => {
                    return None;
                },
                Some(found) => {
                    let ghost before = issue_views(issues@);
                    let mut found = found;
                    issues.append(&mut found);
                    proof {
                        assert(issue_views(issues@) =~= before + long_line_issue(
                            line@,
                            done + 1,
                        )->0);
                        let tail = numbered_line_issues(rest, done + 2);
                        if tail is Some {
                            assert(before + (long_line_issue(line@, done + 1)->0 + tail->0) =~= (
                            before + long_line_issue(line@, done + 1)->0) + tail->0);
                        }
                    }
                },
            }
            done = done + 1;
            start = i + 1;
        }
        i = i + 1;
    }
    if start < n {
        let line = line_chars(&chars, start, n, false);
        proof {
            assert(lines_from(source@, start as int, n as int) == seq![line@]);
            assert(seq![line@].drop_first() =~= Seq::<Seq<char>>::empty());
        }
        match check_line(&line, done + 1) {
            None => {
                return None;
            },
            Some(found) => {
                let ghost before = issue_views(issues@);
                let mut found = found;
                issues.append(&mut found);
                proof {
                    assert(issue_views(issues@) =~= before + long_line_issue(
                        line@,
                        done + 1,
                    )->0);
                    assert(long_line_issue(line@, done + 1)->0 + Seq::<IssueView>::empty()
                        =~= long_line_issue(line@, done + 1)->0);
                    assert(numbered_line_issues(Seq::<Seq<char>>::empty(), done + 2) == Some(
                        Seq::<IssueView>::empty(),
                    ));
                    assert(numbered_line_issues(seq![line@], done + 1) == Some(
                        long_line_issue(line@, done + 1)->0,
                    ));
                }
            },
        }
    } else {
        proof {
            assert(lines_from(source@, start as int, n as int) == Seq::<Seq<char>>::empty());
            assert(numbered_line_issues(Seq::<Seq<char>>::empty(), done + 1) == Some(
                Seq::<IssueView>::empty(),
            ));
            assert(issue_views(issues@) + Seq::<IssueView>::empty() =~= issue_views(issues@));
        }
    }
    Some(issues)
}


/// Linting a list of nodes in two parts gives the findings of the first part followed by
/// those of the second; a failure in either part fails the whole.
pub proof fn law_lint_composes(source: Seq<char>, first: Seq<SyntaxNode>, second: Seq<SyntaxNode>)
    ensures
        lint_result(source, first + second) == combine(
            lint_result(source, first),
            lint_result(source, second),
        ),
    decreases second.len(),
{
    if second.len() == 0 {
        assert(first + second =~= first);
        if lint_result(source, first) is Some {
            assert(lint_result(source, first)->0 + Seq::<IssueView>::empty() =~= lint_result(
                source,
                first,
            )->0);
        }
    } else {
        law_lint_composes(source, first, second.drop_last());
        assert((first + second).drop_last() =~= first + second.drop_last());
        assert((first + second).last() == second.last());
        let a = lint_result(source, first);
        let b = lint_result(source, second.drop_last());
        let c = node_issues(source, second.last());
        if a is Some && b is Some && c is Some {
            assert(a->0 + b->0 + c->0 =~= a->0 + (b->0 + c->0));
        }
    }
}

/// Once a check fails, the result over any longer list of nodes fails too.
proof fn lemma_lint_result_stays_failed(source: Seq<char>, nodes: Seq<SyntaxNode>, k: int)
    requires
        0 <= k <= nodes.len(),
        lint_result(source, nodes.take(k)) is None,
    ensures
        lint_result(source, nodes) is None,
    decreases nodes.len() - k,
{
    if k < nodes.len() {
        assert(nodes.take(k + 1).drop_last() =~= nodes.take(k));
        lemma_lint_result_stays_failed(source, nodes, k + 1);
    } else {
        assert(nodes.take(k) =~= nodes);
    }
}

/// Findings of one node.
fn check_node(source: &str, node: &SyntaxNode) -> (issues: Option<Vec<LintIssue>>)
    ensures
        match issues {
            Some(v) => node_issues(source@, *node) == Some(issue_views(v@)),
            None => node_issues(source@, *node) is None,
        },
{
    let len = source.as_bytes().len();
    if !(node.start_byte <= node.end_byte && node.end_byte <= len && source.is_char_boundary(
        node.start_byte,
    ) && source.is_char_boundary(node.end_byte) && node.start_row < usize::MAX) {
        return None;
    }
    let text = slice_between(source, node.start_byte, node.end_byte);
    let line = node.start_row + 1;
    let mut issues = if node.kind == String::from_str("command") {
        check_command(text, line)
    } else {
        Vec::new()
    };
    let ghost commands = issue_views(issues@);
    let ghost lines_part: Seq<IssueView> = Seq::empty();
    if node.kind == String::from_str("program") {
        match check_program(source) {
            None => {
                return None;
            },
            Some(found) => {
                let mut found = found;
                proof {
                    lines_part = issue_views(found@);
                }
                issues.append(&mut found);
            },
        }
    }
    let ghost before_strings = issue_views(issues@);
    let ghost strings_part: Seq<IssueView> = Seq::empty();
    if node.kind == String::from_str("string") || node.kind == String::from_str("raw_string") {
        match check_string(text, line) {
            None => {
                return None;
            },
            Some(found) => {
                let mut found = found;
                proof {
                    strings_part = issue_views(found@);
                }
                issues.append(&mut found);
            },
        }
    }
    proof {
        assert(before_strings =~= commands + lines_part);
        assert(issue_views(issues@) =~= commands + lines_part + strings_part);
    }
    Some(issues)
}

/// Findings of the nodes of a script, in node order; `None` where a check would slice the
/// script inside a character.
pub fn lint_nodes(source: &str, nodes: &Vec<SyntaxNode>) -> (issues: Option<Vec<LintIssue>>)
    ensures
        match issues {
            Some(v) => lint_result(source@, nodes@) == Some(issue_views(v@)),
            None => lint_result(source@, nodes@) is None,
        },
{
    let mut issues: Vec<LintIssue> = Vec::new();
    let n = nodes.len();
    let mut k: usize = 0;
    proof {
        assert(nodes@.take(0) =~= Seq::<SyntaxNode>::empty());
        assert(issue_views(issues@) =~= Seq::<IssueView>::empty());
    }
    while k < n
        invariant
            n == nodes@.len(),
            k <= n,
            lint_result(source@, nodes@.take(k as int)) == Some(issue_views(issues@)),
        decreases n - k,
    {
        proof {
            assert(nodes@.take(k + 1).drop_last() =~= nodes@.take(k as int));
            assert(nodes@.take(k + 1).last() == nodes@[k as int]);
        }
        match check_node(source, &nodes[k]) {
            None => {
                proof {
                    lemma_lint_result_stays_failed(source@, nodes@, k + 1);
                }
                return None;
            },
            Some(found) => {
                let ghost before = issue_views(issues@);
                let mut found = found;
                let ghost part = issue_views(found@);
                issues.append(&mut found);
                proof {
                    assert(issue_views(issues@) =~= before + part);
                }
            },
        }
        k = k + 1;
    }
    proof {
        assert(nodes@.take(n as int) =~= nodes@);
    }
    Some(issues)
}


/// Why a script could not be linted.
#[derive(Debug, Clone, Copy, PartialEq, Eq, Structural)]
pub enum LintError {
    /// The bash grammar could not be loaded into the parser.
    Language,
    /// The parser produced no syntax tree.
    Parse,
    /// A snippet or a node would have to be cut inside a character.
    SplitCharacter,
}

#[verifier::external_type_specification]
#[verifier::external_body]
pub struct ExTree(tree_sitter::Tree);

#[verifier::external_type_specification]
#[verifier::external_body]
pub struct ExLanguageError(tree_sitter::LanguageError);

/// The plain content of a syntax node: kind, starting row, start byte, end byte.
pub type NodeFacts = (Seq<char>, usize, usize, usize);

impl View for SyntaxNode {
    type V = NodeFacts;

    open spec fn view(&self) -> NodeFacts {
        (self.kind@, self.start_row, self.start_byte, self.end_byte)
    }
}

/// The plain content of a list of syntax nodes.
pub open spec fn node_facts(nodes: Seq<SyntaxNode>) -> Seq<NodeFacts> {
    nodes.map_values(|n: SyntaxNode| n@)
}

/// What a syntax tree holds: the kind, starting row and byte range of each of its nodes,
/// in depth-first pre-order from the root, the root first.
pub uninterp spec fn tree_nodes(tree: tree_sitter::Tree) -> Seq<NodeFacts>;

/// The nodes of the tree that tree-sitter's bash grammar gives for a script, as
/// `tree_nodes` lists them.
pub uninterp spec fn bash_syntax(source: Seq<char>) -> Seq<NodeFacts>;

/// Parses a script with the bash grammar.
///
/// Trusted: calls `tree_sitter::Parser::new`, `Parser::set_language` with
/// `tree_sitter_bash::LANGUAGE`, and `Parser::parse` without an old tree on a parser
/// that nothing else configures. Claimed: the grammar is accepted (it is built for
/// ABI 15, within the 13..=15 that this tree-sitter accepts, and has a lexer), the parse
/// yields a tree (`parse` gives none only without a language, or when a progress
/// callback or a Wasm scanner stops it, and none is set here), and that tree is a
/// function of the script alone (`bash_syntax`).
#[verifier::external_body]
fn parse_bash(source: &str) -> (r: Result<Option<tree_sitter::Tree>, tree_sitter::LanguageError>)
    ensures
        r matches Ok(Some(_)),
        r matches Ok(Some(t)) ==> tree_nodes(t) == bash_syntax(source@),
{
    let mut parser = tree_sitter::Parser::new();
    parser.set_language(&tree_sitter_bash::LANGUAGE.into())?;
    Ok(parser.parse(source, None))
}

/// How many nodes the tree has.
///
/// Trusted: calls `Tree::root_node` and `Node::descendant_count`, which counts the
/// root's descendants and the root itself.
#[verifier::external_body]
fn tree_node_count(tree: &tree_sitter::Tree) -> (n: usize)
    ensures
        n == tree_nodes(*tree).len(),
{
    tree.root_node().descendant_count()
}

/// The node of the tree at the given index in depth-first pre-order, the root at zero.
///
/// Trusted: calls `Tree::walk`, `TreeCursor::goto_descendant` and `TreeCursor::node`,
/// then reads `Node::kind`, `start_position().row`, `start_byte` and `end_byte`.
#[verifier::external_body]
fn tree_node(tree: &tree_sitter::Tree, index: usize) -> (n: SyntaxNode)
    requires
        index < tree_nodes(*tree).len(),
    ensures
        n@ == tree_nodes(*tree)[index as int],
{
    let mut cursor = tree.walk();
    cursor.goto_descendant(index);
    let node = cursor.node();
    SyntaxNode {
        kind: node.kind().to_string(),
        start_row: node.start_position().row,
        start_byte: node.start_byte(),
        end_byte: node.end_byte(),
    }
}

/// The syntax nodes of a script in depth-first pre-order, parsed with the bash grammar.
pub fn syntax_nodes(source: &str) -> (nodes: Result<Vec<SyntaxNode>, LintError>)
    ensures
        nodes matches Ok(v) && node_facts(v@) == bash_syntax(source@),
{
    let tree = match parse_bash(source) {
        Err(_) => {
            return Err(LintError::Language);
        },
        Ok(None) => {
            return Err(LintError::Parse);
        },
        Ok(Some(t)) => t,
    };
    let count = tree_node_count(&tree);
    let mut nodes: Vec<SyntaxNode> = Vec::new();
    for index in 0..count
        invariant
            count == tree_nodes(tree).len(),
            node_facts(nodes@) == tree_nodes(tree).take(index as int),
    {
        let node = tree_node(&tree, index);
        let ghost before = nodes@;
        nodes.push(node);
        proof {
            assert(node_facts(before).len() == before.len());
            assert(before.len() == index);
            assert(nodes@ == before.push(node));
            assert(nodes@[index as int] == node);
            assert(node_facts(nodes@)[index as int] == node@);
            assert(node_facts(nodes@) =~= tree_nodes(tree).take(index + 1));
        }
    }
    proof {
        assert(tree_nodes(tree).take(count as int) =~= tree_nodes(tree));
    }
    Ok(nodes)
}

/// Lints a bash script: its findings in the order of the syntax nodes that raise them,
/// or `SplitCharacter` where a check would cut the script inside a character.
pub fn lint_source(source: &str) -> (issues: Result<Vec<LintIssue>, LintError>)
    ensures
        issues is Ok || issues == Err::<Vec<LintIssue>, LintError>(LintError::SplitCharacter),
        issues matches Ok(v) ==> exists|nodes: Seq<SyntaxNode>|
            #[trigger] node_facts(nodes) == bash_syntax(source@) && lint_result(source@, nodes)
                == Some(issue_views(v@)),
        issues is Err ==> exists|nodes: Seq<SyntaxNode>|
            #[trigger] node_facts(nodes) == bash_syntax(source@) && lint_result(
                source@,
                nodes,
            ) is None,
{
    let nodes = syntax_nodes(source)?;
    proof {
        assert(node_facts(nodes@) == bash_syntax(source@));
    }
    match lint_nodes(source, &nodes) {
        Some(v) => Ok(v),
        None => Err(LintError::SplitCharacter),
    }
}

/// The level label of a severity.
pub open spec fn level_label(s: Severity) -> Seq<char> {
    match s {
        Severity::Error => "ERROR"@,
        Severity::Warning => "WARN"@,
        Severity::Info => "INFO"@,
    }
}

/// The report lines of one finding: its level, line and message, then its snippet trimmed.
pub open spec fn issue_report_lines(i: IssueView) -> Seq<Seq<char>> {
    let head = "  ["@ + level_label(i.severity) + "] Line "@ + decimal(i.line as nat) + ": "@
        + i.message;
    match i.snippet {
        Some(s) => seq![head, "         "@ + trim(s)],
        None => seq![head],
    }
}

/// The report lines of the findings, in order.
pub open spec fn issues_report_lines(issues: Seq<IssueView>) -> Seq<Seq<char>>
    decreases issues.len(),
{
    if issues.len() == 0 {
        seq![]
    } else {
        issues_report_lines(issues.drop_last()) + issue_report_lines(issues.last())
    }
}

/// How many findings, in words.
pub open spec fn issue_count_text(n: nat) -> Seq<char> {
    if n == 1 {
        "1 issue"@
    } else {
        decimal(n) + " issues"@
    }
}

/// The report printed for a script at `path`.
pub open spec fn report_lines(path: Seq<char>, issues: Seq<IssueView>) -> Seq<Seq<char>> {
    if issues.len() == 0 {
        seq!["✅ No issues found in "@ + path]
    } else {
        seq!["🔍 "@ + issue_count_text(issues.len()) + " found in "@ + path + ":"@, ""@]
            + issues_report_lines(issues)
    }
}

fn level_text(s: Severity) -> (t: &'static str)
    ensures
        t@ == level_label(s),
{
    match s {
        Severity::Error => "ERROR",
        Severity::Warning => "WARN",
        Severity::Info => "INFO",
    }
}

/// The lines of the report on the findings for the script at `path`.
pub fn lint_report_lines(path: &str, issues: &Vec<LintIssue>) -> (lines: Vec<String>)
    ensures
        string_views(lines@) == report_lines(path@, issue_views(issues@)),
{
    let mut lines: Vec<String> = Vec::new();
    if issues.len() == 0 {
        let mut line = String::from_str("✅ No issues found in ");
        line.append(path);
        lines.push(line);
        proof {
            assert(string_views(lines@) =~= report_lines(path@, issue_views(issues@)));
        }
        return lines;
    }
    let mut head = String::from_str("🔍 ");
    if issues.len() == 1 {
        head.append("1 issue");
    } else {
        push_decimal(&mut head, issues.len() as u64);
        head.append(" issues");
    }
    head.append(" found in ");
    head.append(path);
    head.append(":");
    proof {
        assert(issue_views(issues@).len() == issues@.len());
        assert(head@ =~= "🔍 "@ + issue_count_text(issue_views(issues@).len()) + " found in "@
            + path@ + ":"@);
    }
    lines.push(head);
    lines.push(String::from_str(""));
    let ghost top = string_views(lines@);
    let n = issues.len();
    let mut k: usize = 0;
    proof {
        assert(issue_views(issues@).take(0) =~= Seq::<IssueView>::empty());
        assert(string_views(lines@) =~= top + issues_report_lines(
            issue_views(issues@).take(0),
        ));
    }
    while k < n
        invariant
            n == issues@.len(),
            k <= n,
            string_views(lines@) == top + issues_report_lines(issue_views(issues@).take(k as int)),
        decreases n - k,
    {
        let issue = &issues[k];
        let ghost before = string_views(lines@);
        let mut head = String::from_str("  [");
        head.append(level_text(issue.severity));
        head.append("] Line ");
        push_decimal(&mut head, issue.line as u64);
        head.append(": ");
        head.append(issue.message.as_str());
        lines.push(head);
        match &issue.snippet {
            Some(snippet) => {
                let mut body = String::from_str("         ");
                let trimmed = string_from_chars(&trim_chars(&str_chars(snippet.as_str())));
                body.append(trimmed.as_str());
                lines.push(body);
            },
            None => {},
        }
        proof {
            let views = issue_views(issues@);
            assert(views.take(k + 1).drop_last() =~= views.take(k as int));
            assert(views.take(k + 1).last() == issue@);
            assert(string_views(lines@) =~= before + issue_report_lines(issue@));
        }
        k = k + 1;
    }
    proof {
        assert(issue_views(issues@).take(n as int) =~= issue_views(issues@));
        assert(top[0] == "🔍 "@ + issue_count_text(issue_views(issues@).len()) + " found in "@
            + path@ + ":"@);
        assert(top[1] == ""@);
        assert(top.len() == 2);
        assert(string_views(lines@) =~= report_lines(path@, issue_views(issues@)));
    }
    lines
}

/// Some finding in the list is exactly `f`.
pub open spec fn has_finding(v: Seq<IssueView>, f: IssueView) -> bool {
    exists|j: int| 0 <= j < v.len() && v[j] == f
}

/// What a `command` node is flagged for. Judged on the command's lowercased text: a
/// recursive `rm` without `--no-preserve-root` gets a warning, `eval`, `source` or `.`
/// gets a dynamic-execution warning, and `curl` or `wget` without `--proto` or
/// `--secure` gets a note; each at the command's line with its text as the snippet, and
/// nothing else.
pub proof fn law_command_findings(text: Seq<char>, line: usize)
    ensures
        ({
            let v = command_issues(text, line);
            let cmd = lowercase(text);
            &&& (starts_with(cmd, "rm "@) && (contains(cmd, " -rf "@) || contains(cmd, " -r "@))
                && !contains(cmd, "--no-preserve-root"@)) <==> has_finding(
                v,
                IssueView {
                    line,
                    severity: Severity::Warning,
                    message: "Use 'rm -rf' with caution. Consider adding --no-preserve-root for explicit intent."@,
                    snippet: Some(text),
                },
            )
            &&& (starts_with(cmd, "eval "@) || starts_with(cmd, "source "@) || starts_with(
                cmd,
                ". "@,
            )) <==> has_finding(
                v,
                IssueView {
                    line,
                    severity: Severity::Warning,
                    message: "Dynamic execution (eval/source/.) can lead to code injection"@,
                    snippet: Some(text),
                },
            )
            &&& ((starts_with(cmd, "curl "@) || starts_with(cmd, "wget "@)) && !contains(
                cmd,
                "--proto"@,
            ) && !contains(cmd, "--secure"@)) <==> has_finding(
                v,
                IssueView {
                    line,
                    severity: Severity::Info,
                    message: "Consider verifying HTTPS/TLS flags for curl/wget"@,
                    snippet: Some(text),
                },
            )
            &&& v.len() <= 3
        }),
{
    reveal_strlit("Use 'rm -rf' with caution. Consider adding --no-preserve-root for explicit intent.");
    reveal_strlit("Dynamic execution (eval/source/.) can lead to code injection");
    reveal_strlit("Consider verifying HTTPS/TLS flags for curl/wget");
    let v = command_issues(text, line);
    let cmd = lowercase(text);
    let rm = if starts_with(cmd, "rm "@) && (contains(cmd, " -rf "@) || contains(cmd, " -r "@))
        && !contains(cmd, "--no-preserve-root"@) {
        seq![issue(line, Severity::Warning, rm_message(), text)]
    } else {
        seq![]
    };
    let is_dynamic = starts_with(cmd, "eval "@) || starts_with(cmd, "source "@)
        || starts_with(cmd, ". "@);
    let dynamic = if is_dynamic {
        seq![issue(line, Severity::Warning, dynamic_message(), text)]
    } else {
        seq![]
    };
    let download = if (starts_with(cmd, "curl "@) || starts_with(cmd, "wget "@)) && !contains(
        cmd,
        "--proto"@,
    ) && !contains(cmd, "--secure"@) {
        seq![issue(line, Severity::Info, download_message(), text)]
    } else {
        seq![]
    };
    assert(v == rm + dynamic + download);
    assert(rm_message().len() != dynamic_message().len());
    assert(rm_message().len() != download_message().len());
    assert(dynamic_message().len() != download_message().len());
    if rm.len() > 0 {
        assert(v[0] == rm[0]);
    }
    if dynamic.len() > 0 {
        assert(v[rm.len() as int] == dynamic[0]);
    }
    if download.len() > 0 {
        assert(v[(rm.len() + dynamic.len()) as int] == download[0]);
    }
    assert forall|j: int| 0 <= j < v.len() implies (v[j].message == rm_message() ==> rm.len() > 0)
        && (v[j].message == dynamic_message() ==> dynamic.len() > 0) && (v[j].message
        == download_message() ==> download.len() > 0) by {
        if j < rm.len() {
            assert(v[j] == rm[j]);
        } else if j < rm.len() + dynamic.len() {
            assert(v[j] == dynamic[j - rm.len()]);
        } else {
            assert(v[j] == download[j - rm.len() - dynamic.len()]);
        }
    }
}

/// A `command` node that lies within the script is judged by its own text alone, at the
/// line it starts on (counted from one).
pub proof fn law_command_node_findings(source: Seq<char>, n: SyntaxNode)
    requires
        node_in_script(source, n),
        n.kind@ == "command"@,
    ensures
        node_issues(source, n) == Some(
            command_issues(decode_utf8(node_bytes(source, n)), (n.start_row + 1) as usize),
        ),
{
    reveal_strlit("command");
    reveal_strlit("program");
    reveal_strlit("string");
    reveal_strlit("raw_string");
    assert("command"@[0] != "program"@[0]);
    assert(n.kind@ != "program"@);
    assert("command"@.len() != "string"@.len());
    assert(n.kind@ != "string"@);
    assert(n.kind@ != "raw_string"@);
    let c = command_issues(decode_utf8(node_bytes(source, n)), (n.start_row + 1) as usize);
    assert(c + Seq::<IssueView>::empty() + Seq::<IssueView>::empty() =~= c);
}

/// Each severity prints under its own label: `ERROR`, `WARN` and `INFO`.
pub proof fn law_level_labels_are_distinct()
    ensures
        level_label(Severity::Error) == "ERROR"@,
        level_label(Severity::Warning) == "WARN"@,
        level_label(Severity::Info) == "INFO"@,
        forall|a: Severity, b: Severity| #[trigger] level_label(a) == #[trigger] level_label(b) ==> a
            == b,
{
    reveal_strlit("ERROR");
    reveal_strlit("WARN");
    reveal_strlit("INFO");
    assert("ERROR"@.len() != "WARN"@.len());
    assert("ERROR"@.len() != "INFO"@.len());
    assert("WARN"@[0] != "INFO"@[0]);
}

} // verus!

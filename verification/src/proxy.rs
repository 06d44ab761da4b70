//! Reverse proxy rules that are added by hand: the file a rule is kept in,
//! the text of the rule, and reading a rule back from its text.
use crate::project::{cert_name, certificate_name};
use crate::search::{
    contains, contains_text, replace_all, replaced, trim_end_matches, without_trailing,
};
use crate::text::{
    chars_of, extend_chars, last_token, last_word, lines_of, scan_word, skip_word, slice_of,
    split_lines, string_of, texts, trim, trimmed,
};
use vstd::prelude::*;

verus! {

/// A rule: requests for `domain` go to `target`.
pub ghost struct Rule {
    pub domain: Seq<char>,
    pub target: Seq<char>,
}

/// Proxy rule storage
#[derive(Debug)]
pub struct ProxyRule {
    pub domain: String,
    pub target: String,
}

impl View for ProxyRule {
    type V = Rule;

    open spec fn view(&self) -> Rule {
        Rule { domain: self.domain@, target: self.target@ }
    }
}

/// The name of the file that holds the rule of `domain`: the domain with
/// `_` for `.` and for `:`, and the extension `.caddy`.
pub open spec fn rule_file(domain: Seq<char>) -> Seq<char> {
    replaced(replaced(domain, seq!['.'], seq!['_']), seq![':'], seq!['_']) + ".caddy"@
}

/// The name of the file that holds the rule of `domain`.
pub fn rule_file_name(domain: &str) -> (name: String)
    ensures
        name@ == rule_file(domain@),
{
    let mut dot: Vec<char> = Vec::new();
    dot.push('.');
    let mut colon: Vec<char> = Vec::new();
    colon.push(':');
    let mut line: Vec<char> = Vec::new();
    line.push('_');
    assert(dot@ =~= seq!['.'] && line@ =~= seq!['_'] && colon@ =~= seq![':']);
    let mut chars = replace_all(&replace_all(&chars_of(domain), &dot, &line), &colon, &line);
    extend_chars(&mut chars, &chars_of(".caddy"));
    string_of(&chars)
}

/// The text of a rule.
pub open spec fn rule_text(domain: Seq<char>, target: Seq<char>) -> Seq<char> {
    "# Auto-generated proxy rule\n# Domain: "@ + domain + "\n# Target: "@ + target + "\n\n"@
        + domain + " {\n    tls /certs/"@ + certificate_name(domain) + ".crt /certs/"@
        + certificate_name(domain) + ".key\n    reverse_proxy "@ + target + "\n}\n"@
}

/// The text of a rule.
pub fn proxy_rule_text(domain: &str, target: &str) -> (text: String)
    ensures
        text@ == rule_text(domain@, target@),
{
    let cert = cert_name(domain);
    let mut out = chars_of("# Auto-generated proxy rule\n# Domain: ");
    extend_chars(&mut out, &chars_of(domain));
    extend_chars(&mut out, &chars_of("\n# Target: "));
    extend_chars(&mut out, &chars_of(target));
    extend_chars(&mut out, &chars_of("\n\n"));
    extend_chars(&mut out, &chars_of(domain));
    extend_chars(&mut out, &chars_of(" {\n    tls /certs/"));
    extend_chars(&mut out, &chars_of(cert.as_str()));
    extend_chars(&mut out, &chars_of(".crt /certs/"));
    extend_chars(&mut out, &chars_of(cert.as_str()));
    extend_chars(&mut out, &chars_of(".key\n    reverse_proxy "));
    extend_chars(&mut out, &chars_of(target));
    extend_chars(&mut out, &chars_of("\n}\n"));
    assert(out@ =~= rule_text(domain@, target@));
    string_of(&out)
}

pub open spec fn directive() -> Seq<char> {
    "reverse_proxy"@
}

/// What is known of a rule while its text is read.
pub ghost struct RuleScan {
    pub domain: Option<Seq<char>>,
    pub target: Option<Seq<char>>,
}

/// The domain that a line names: the first word of a line that is neither
/// empty nor a comment, begins with no brace and holds no `reverse_proxy`,
/// without braces at its end.
pub open spec fn named_domain(line: Seq<char>) -> Option<Seq<char>> {
    let t = trimmed(line);
    if t.len() > 0 && t[0] != '#' && t[0] != '{' && !contains_text(t, directive()) {
        let word = trimmed(without_trailing(t.subrange(0, skip_word(t, 0)), '{'));
        if word.len() > 0 {
            Some(word)
        } else {
            None
        }
    } else {
        None
    }
}

/// The target that a line names: the last word of a line that holds
/// `reverse_proxy`.
pub open spec fn named_target(line: Seq<char>) -> Option<Seq<char>> {
    let t = trimmed(line);
    if contains_text(t, directive()) {
        last_word(t)
    } else {
        None
    }
}

/// What one line adds: the domain is the first that is named, the target the
/// last.
pub open spec fn rule_step(scan: RuleScan, line: Seq<char>) -> RuleScan {
    RuleScan {
        domain: if scan.domain is None {
            named_domain(line)
        } else {
            scan.domain
        },
        target: if named_target(line) is Some {
            named_target(line)
        } else {
            scan.target
        },
    }
}

pub open spec fn rule_scan(lines: Seq<Seq<char>>, n: int) -> RuleScan
    decreases n,
{
    if n <= 0 {
        RuleScan { domain: None, target: None }
    } else {
        rule_step(rule_scan(lines, n - 1), lines[n - 1])
    }
}

/// The rule that a text holds, if it names both a domain and a target.
pub open spec fn rule_of(content: Seq<char>) -> Option<Rule> {
    let scan = rule_scan(lines_of(content), lines_of(content).len() as int);
    match (scan.domain, scan.target) {
        (Some(domain), Some(target)) => Some(Rule { domain, target }),
        _ => None,
    }
}

/// Parse proxy rule from the text of its file
pub fn parse_proxy_rule(content: &str) -> (r: Option<ProxyRule>)
    ensures
        match r {
            Some(rule) => rule_of(content@) == Some(rule@),
            None => rule_of(content@) is None,
        },
{
    let lines = split_lines(&chars_of(content));
    let word = chars_of("reverse_proxy");
    let ghost all = texts(lines@);
    let mut domain: Option<Vec<char>> = None;
    let mut target: Option<Vec<char>> = None;
    let mut i: usize = 0;
    while i < lines.len()
        invariant
            i <= lines.len(),
            all == texts(lines@),
            word@ == directive(),
            rule_scan(all, i as int) == (RuleScan {
                domain: match domain {
                    Some(d) => Some(d@),
                    None => None,
                },
                target: match target {
                    Some(t) => Some(t@),
                    None => None,
                },
            }),
        decreases lines.len() - i,
    {
        let t = trim(&chars_of(lines[i].as_str()));
        assert(all[i as int] == lines@[i as int]@);
        let proxied = contains(&t, &word);
        if domain.is_none() && t.len() > 0 && t[0] != '#' && t[0] != '{' && !proxied {
            let end = scan_word(&t, 0);
            let clean = trim(&trim_end_matches(&slice_of(&t, 0, end), '{'));
            if clean.len() > 0 {
                domain = Some(clean);
            }
        }
        if proxied {
            match last_token(&t) {
                Some(w) => {
                    target = Some(w);
                },
                None => {},
            }
        }
        i += 1;
    }
    match (domain, target) {
        (Some(d), Some(t)) => Some(ProxyRule { domain: string_of(&d), target: string_of(&t) }),
        _ => None,
    }
}

} // verus!

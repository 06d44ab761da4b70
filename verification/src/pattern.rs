//! Filling the variables of a template: `${NAME}` and `${NAME:-default}`.
//!
//! The patterns with a default are found by regular expressions, which are
//! the work of the `regex` crate.
use crate::search::{contains, contains_text, replace_all, replaced};
use crate::text::{chars_of, extend_chars, pair_texts, string_of};
use vstd::prelude::*;

verus! {

/// Whether `regex` takes a text as a regular expression.
pub uninterp spec fn regex_valid(pattern: Seq<char>) -> bool;

/// `text` with every match of the regular expression `pattern` replaced by
/// `with`, in which `$1` and the like stand for what the groups matched.
pub uninterp spec fn regex_replaced(pattern: Seq<char>, text: Seq<char>, with: Seq<char>) -> Seq<
    char,
>;

/// Whether a character means something in a regular expression: one of
/// `\ . + * ? ( ) | [ ] { } ^ $ # & - ~`.
pub open spec fn is_meta(c: char) -> bool {
    c == '\\' || c == '.' || c == '+' || c == '*' || c == '?' || c == '(' || c == ')' || c == '|'
        || c == '[' || c == ']' || c == '{' || c == '}' || c == '^' || c == '$' || c == '#' || c
        == '&' || c == '-' || c == '~'
}

/// `text` with a backslash before every character that means something in a
/// regular expression.
pub open spec fn regex_escaped(text: Seq<char>) -> Seq<char>
    decreases text.len(),
{
    if text.len() == 0 {
        Seq::empty()
    } else if is_meta(text.last()) {
        regex_escaped(text.drop_last()).push('\\').push(text.last())
    } else {
        regex_escaped(text.drop_last()).push(text.last())
    }
}

/// `text` in upper case.
pub uninterp spec fn uppercased(text: Seq<char>) -> Seq<char>;

/// `regex::Regex::new` and, on the expression it gives,
/// `regex::Regex::replace_all` with a text as the replacement. `None` comes
/// back exactly for the patterns that `regex` does not take; what comes back
/// otherwise depends on the pattern, the text and the replacement alone.
#[verifier::external_body]
fn replace_matches(pattern: &str, text: &str, with: &str) -> (r: Option<String>)
    ensures
        match r {
            Some(out) => regex_valid(pattern@) && out@ == regex_replaced(pattern@, text@, with@),
            None => !regex_valid(pattern@),
        },
{
    match regex::Regex::new(pattern) {
        Ok(re) => Some(re.replace_all(text, with).into_owned()),
        Err(_) => None,
    }
}

/// `regex::escape`: copies the text and puts a backslash before each of the
/// eighteen meta characters of regular expressions.
#[verifier::external_body]
fn escape(text: &str) -> (out: String)
    ensures
        out@ == regex_escaped(text@),
{
    regex::escape(text)
}

/// `str::to_uppercase` of the standard library.
#[verifier::external_body]
fn to_upper(text: &str) -> (out: String)
    ensures
        out@ == uppercased(text@),
{
    text.to_uppercase()
}

/// `${NAME}`
pub open spec fn plain_reference(name: Seq<char>) -> Seq<char> {
    "${"@ + name + "}"@
}

/// `${NAME:-`
pub open spec fn open_reference(name: Seq<char>) -> Seq<char> {
    "${"@ + name + ":-"@
}

/// The regular expression for `${NAME:-default}`.
pub open spec fn default_pattern(name: Seq<char>) -> Seq<char> {
    "\\$\\{"@ + regex_escaped(name) + "\\:\\-([^}]+)\\}"@
}

/// The regular expression for any `${NAME:-default}`.
pub open spec fn any_default_pattern() -> Seq<char> {
    "\\$\\{[^:}]+:-([^}]+)\\}"@
}

/// `text` with the regular expression's matches replaced, or as it is when
/// the expression is none.
pub open spec fn pattern_replaced(pattern: Seq<char>, text: Seq<char>, with: Seq<char>) -> Seq<
    char,
> {
    if regex_valid(pattern) {
        regex_replaced(pattern, text, with)
    } else {
        text
    }
}

/// `text` with the variable `name` set to `value`: `${name}` becomes the
/// value, and so does `${name:-default}`, whatever the default.
pub open spec fn with_variable(text: Seq<char>, name: Seq<char>, value: Seq<char>) -> Seq<char> {
    let a = if contains_text(text, plain_reference(name)) {
        replaced(text, plain_reference(name), value)
    } else {
        text
    };
    if contains_text(a, open_reference(name)) {
        pattern_replaced(default_pattern(name), a, value)
    } else {
        a
    }
}

/// `text` with the first `n` variables set, one after the other.
pub open spec fn with_variables(text: Seq<char>, vars: Seq<(Seq<char>, Seq<char>)>, n: int) -> Seq<
    char,
>
    decreases n,
{
    if n <= 0 {
        text
    } else {
        with_variable(with_variables(text, vars, n - 1), vars[n - 1].0, vars[n - 1].1)
    }
}

/// The variable that holds the version of a service: `SERVICE_VERSION`.
pub open spec fn version_variable(service: Seq<char>) -> Seq<char> {
    uppercased(service) + "_VERSION"@
}

/// `text` with the version of the service set, if one is given.
pub open spec fn with_version(text: Seq<char>, service: Seq<char>, version: Option<Seq<char>>) -> Seq<
    char,
> {
    match version {
        Some(v) => replaced(
            replaced(text, plain_reference(version_variable(service)), v),
            "${"@ + version_variable(service) + ":-latest}"@,
            v,
        ),
        None => text,
    }
}

/// A template with its variables filled in: the given variables in their
/// order, then the version of the service, and at last every remaining
/// `${NAME:-default}` by its default.
pub open spec fn substituted(
    template: Seq<char>,
    vars: Seq<(Seq<char>, Seq<char>)>,
    service: Seq<char>,
    version: Option<Seq<char>>,
) -> Seq<char> {
    let a = with_variables(template, vars, vars.len() as int);
    let b = with_version(a, service, version);
    pattern_replaced(any_default_pattern(), b, "$1"@)
}

fn replace_pattern(pattern: &str, text: String, with: &str) -> (out: String)
    ensures
        out@ == pattern_replaced(pattern@, text@, with@),
{
    match replace_matches(pattern, text.as_str(), with) {
        Some(out) => out,
        None => text,
    }
}

fn reference(name: &str, close: &str) -> (r: Vec<char>)
    ensures
        r@ == "${"@ + name@ + close@,
{
    let mut r = chars_of("${");
    extend_chars(&mut r, &chars_of(name));
    extend_chars(&mut r, &chars_of(close));
    r
}

fn set_variable(text: String, name: &str, value: &str) -> (out: String)
    ensures
        out@ == with_variable(text@, name@, value@),
{
    let plain = reference(name, "}");
    let open = reference(name, ":-");
    let chars = chars_of(text.as_str());
    let a = if contains(&chars, &plain) {
        replace_all(&chars, &plain, &chars_of(value))
    } else {
        chars
    };
    if contains(&a, &open) {
        let mut pattern = chars_of("\\$\\{");
        extend_chars(&mut pattern, &chars_of(escape(name).as_str()));
        extend_chars(&mut pattern, &chars_of("\\:\\-([^}]+)\\}"));
        replace_pattern(string_of(&pattern).as_str(), string_of(&a), value)
    } else {
        string_of(&a)
    }
}

/// Fills in the variables of a template.
pub fn replace_env_vars(
    template: &str,
    env_vars: &Vec<(String, String)>,
    service_name: &str,
    version: Option<&str>,
) -> (result: String)
    ensures
        result@ == substituted(
            template@,
            pair_texts(env_vars@),
            service_name@,
            match version {
                Some(v) => Some(v@),
                None => None,
            },
        ),
{
    let ghost vars = pair_texts(env_vars@);
    let mut result = template.to_owned();
    let mut i: usize = 0;
    while i < env_vars.len()
        invariant
            i <= env_vars.len(),
            vars == pair_texts(env_vars@),
            result@ == with_variables(template@, vars, i as int),
        decreases env_vars.len() - i,
    {
        assert(vars[i as int] == (env_vars@[i as int].0@, env_vars@[i as int].1@));
        result = set_variable(result, env_vars[i].0.as_str(), env_vars[i].1.as_str());
        i += 1;
    }
    match version {
        Some(v) => {
            let mut key = chars_of(to_upper(service_name).as_str());
            extend_chars(&mut key, &chars_of("_VERSION"));
            let name = string_of(&key);
            let plain = reference(name.as_str(), "}");
            let with_default = reference(name.as_str(), ":-latest}");
            let value = chars_of(v);
            let a = replace_all(&chars_of(result.as_str()), &plain, &value);
            let b = replace_all(&a, &with_default, &value);
            result = string_of(&b);
        },
        None => {},
    }
    replace_pattern("\\$\\{[^:}]+:-([^}]+)\\}", result, "$1")
}

} // verus!

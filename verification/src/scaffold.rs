//! Setting a project up: the answers of the operator and the files that
//! are written for a new project.
use crate::text::{
    chars_of, extend_chars, parse_decimal, scan_spaces, scan_word, skip_spaces, skip_word,
    slice_of, string_of, trim, trimmed, unsigned_value,
};
use vstd::prelude::*;

verus! {

/// The answer to a question with a default: the default for an answer that
/// is blank, the trimmed answer otherwise.
pub fn answer_or_default(answer: &str, default: &str) -> (value: String)
    ensures
        value@ == if trimmed(answer@).len() == 0 {
            default@
        } else {
            trimmed(answer@)
        },
{
    let t = trim(&chars_of(answer));
    if t.len() == 0 {
        default.to_owned()
    } else {
        string_of(&t)
    }
}

/// The position that a word selects among `count` choices: the word is a
/// number from 1 to `count`, and the position is one less.
pub open spec fn selected(word: Seq<char>, count: usize) -> Option<usize> {
    match unsigned_value(word) {
        Some(n) => if 1 <= n <= count {
            Some((n - 1) as usize)
        } else {
            None
        },
        None => None,
    }
}

/// The positions that the words of `s` from `i` on select, in order.
pub open spec fn selected_from(s: Seq<char>, i: int, count: usize) -> Seq<usize>
    decreases s.len() - i,
{
    let start = skip_spaces(s, i);
    let end = skip_word(s, start);
    if 0 <= i <= start < end <= s.len() {
        match selected(s.subrange(start, end), count) {
            Some(p) => seq![p] + selected_from(s, end, count),
            None => selected_from(s, end, count),
        }
    } else {
        Seq::empty()
    }
}

/// The positions that an answer selects among `count` choices: the answer
/// holds numbers from 1 to `count`, separated by white space; anything else
/// in it is passed over.
pub fn parse_selection(answer: &str, count: usize) -> (positions: Vec<usize>)
    ensures
        positions@ == selected_from(answer@, 0, count),
{
    let s = chars_of(answer);
    let mut positions: Vec<usize> = Vec::new();
    let mut i: usize = 0;
    assert(positions@ + selected_from(s@, 0, count) =~= selected_from(s@, 0, count));
    loop
        invariant
            i <= s.len(),
            s@ == answer@,
            positions@ + selected_from(s@, i as int, count) == selected_from(s@, 0, count),
        decreases s.len() - i,
    {
        let start = scan_spaces(&s, i);
        if start >= s.len() {
            proof {
                crate::text::lemma_skip_word(s@, start as int);
                assert(positions@ + Seq::<usize>::empty() =~= positions@);
            }
            return positions;
        }
        let end = scan_word(&s, start);
        proof {
            crate::text::lemma_skip_spaces(s@, i as int);
            assert(!crate::text::is_space(s@[start as int]));
            crate::text::lemma_skip_word(s@, start + 1);
            assert(skip_word(s@, start as int) == skip_word(s@, start + 1));
            assert(end > start);
        }
        let ghost before = positions@;
        let word = slice_of(&s, start, end);
        match parse_decimal(&word, count as u64) {
            Some(n) => {
                if n >= 1 {
                    positions.push((n - 1) as usize);
                    assert(positions@ + selected_from(s@, end as int, count) =~= before
                        + selected_from(s@, i as int, count));
                }
            },
            None => {},
        }
        i = end;
    }
}

/// The configuration of the reverse proxy itself. Automatic HTTPS is
/// switched off unless HTTPS is enabled.
pub open spec fn proxy_file_text(enable_https: bool) -> Seq<char> {
    "{\n    admin 0.0.0.0:2019\n"@ + (if enable_https {
        Seq::empty()
    } else {
        "    auto_https off\n"@
    }) + "}\n\n# Import all project configurations\nimport /etc/caddy/projects/*.caddy\n"@
}

/// The configuration of the reverse proxy itself.
pub fn caddyfile_text(enable_https: bool) -> (text: String)
    ensures
        text@ == proxy_file_text(enable_https),
{
    let mut out = chars_of("{\n    admin 0.0.0.0:2019\n");
    if !enable_https {
        extend_chars(&mut out, &chars_of("    auto_https off\n"));
    } else {
        assert(out@ + Seq::<char>::empty() =~= out@);
    }
    extend_chars(
        &mut out,
        &chars_of("}\n\n# Import all project configurations\nimport /etc/caddy/projects/*.caddy\n"),
    );
    string_of(&out)
}

/// The configuration file of a new project. The manifest is only named when
/// it is not the default one, and the section for routes is only there when
/// it was asked for.
pub open spec fn project_file_text(
    name: Seq<char>,
    domain: Seq<char>,
    network: Seq<char>,
    compose_file: Seq<char>,
    with_routes: bool,
) -> Seq<char> {
    "# oh-my-dockers Project Configuration\n# See https://github.com/your-repo/oh-my-dockers for more information\n\n[project]\n# Project name (used for container naming)\nname = \""@
        + name + "\"\n\n# Domain for this project\ndomain = \""@ + domain + "\"\n"@ + (
    if compose_file != "docker-compose.yml"@ {
        "\n# Path to docker-compose file (relative to project directory)\ncompose_file = \""@
            + compose_file + "\"\n"@
    } else {
        Seq::empty()
    }) + "\n[network]\n# Docker network name for this project\nname = \""@ + network + "\"\n"@ + (
    if with_routes {
        "\n[caddy]\n# Custom Caddy routes\n# Format: subdomain = \"container_name:port\"\n# Example:\n#   api = \"backend:3000\"\n#   app = \"frontend:80\"\n#   admin = \"admin:8080\"\nroutes = {}\n"@
    } else {
        Seq::empty()
    })
}

/// The configuration file of a new project.
pub fn project_config_text(
    name: &str,
    domain: &str,
    network: &str,
    compose_file: &str,
    with_routes: bool,
) -> (text: String)
    ensures
        text@ == project_file_text(name@, domain@, network@, compose_file@, with_routes),
{
    let mut out = chars_of(
        "# oh-my-dockers Project Configuration\n# See https://github.com/your-repo/oh-my-dockers for more information\n\n[project]\n# Project name (used for container naming)\nname = \"",
    );
    extend_chars(&mut out, &chars_of(name));
    extend_chars(&mut out, &chars_of("\"\n\n# Domain for this project\ndomain = \""));
    extend_chars(&mut out, &chars_of(domain));
    extend_chars(&mut out, &chars_of("\"\n"));
    let ghost head = out@;
    let named = !crate::text::same_text(&chars_of(compose_file), &chars_of("docker-compose.yml"));
    if named {
        extend_chars(
            &mut out,
            &chars_of(
                "\n# Path to docker-compose file (relative to project directory)\ncompose_file = \"",
            ),
        );
        extend_chars(&mut out, &chars_of(compose_file));
        extend_chars(&mut out, &chars_of("\"\n"));
    }
    let ghost manifest = if compose_file@ != "docker-compose.yml"@ {
        "\n# Path to docker-compose file (relative to project directory)\ncompose_file = \""@
            + compose_file@ + "\"\n"@
    } else {
        Seq::empty()
    };
    assert(out@ =~= head + manifest);
    extend_chars(
        &mut out,
        &chars_of("\n[network]\n# Docker network name for this project\nname = \""),
    );
    extend_chars(&mut out, &chars_of(network));
    extend_chars(&mut out, &chars_of("\"\n"));
    let ghost body = out@;
    if with_routes {
        extend_chars(
            &mut out,
            &chars_of(
                "\n[caddy]\n# Custom Caddy routes\n# Format: subdomain = \"container_name:port\"\n# Example:\n#   api = \"backend:3000\"\n#   app = \"frontend:80\"\n#   admin = \"admin:8080\"\nroutes = {}\n",
            ),
        );
    } else {
        assert(out@ + Seq::<char>::empty() =~= out@);
    }
    assert(out@ =~= project_file_text(name@, domain@, network@, compose_file@, with_routes));
    string_of(&out)
}

} // verus!

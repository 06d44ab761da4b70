//! Service templates of managed projects: the parts of a template that go
//! into a manifest, the ports of the known services, and the settings that
//! a project hands to its templates.
use crate::search::{replace_all, replaced};
use crate::text::{chars_of, decimal_chars, decimal_text, extend_chars, has_prefix, lines_of, pair_texts, same_text, split_lines, string_of, texts, trim, trimmed};
use vstd::prelude::*;

verus! {

/// The parts of a template that go into a manifest.
pub ghost struct Parts {
    pub services: Seq<char>,
    pub volumes: Seq<char>,
}

/// The parts of a template that go into a manifest.
#[derive(Debug)]
pub struct TemplateContent {
    pub services: String,
    pub volumes: String,
}

impl View for TemplateContent {
    type V = Parts;

    open spec fn view(&self) -> Parts {
        Parts { services: self.services@, volumes: self.volumes@ }
    }
}

/// The section of a template that a line belongs to.
#[derive(Clone, Copy, Debug, PartialEq, Eq, Structural)]
pub enum Section {
    Other,
    Services,
    Volumes,
    /// The `networks` section was reached: the rest of the template does
    /// not count.
    Over,
}

/// What is known of a template while its lines are read.
pub ghost struct TemplateScan {
    pub section: Section,
    pub services: Seq<char>,
    pub volumes: Seq<char>,
}

/// A line that is not indented and not blank heads a section.
pub open spec fn is_heading(line: Seq<char>) -> bool {
    trimmed(line).len() > 0 && line[0] != ' ' && line[0] != '\t'
}

/// What one line of a template adds.
///
/// A heading switches the section: `services:` and `volumes:` begin their
/// section, `networks:` ends the template, any other heading begins a
/// section that does not count. A line under `services:` is taken as it is.
/// Under `volumes:` a line is taken if it is indented by two spaces and is
/// no list item.
pub open spec fn template_step(scan: TemplateScan, line: Seq<char>) -> TemplateScan {
    let t = trimmed(line);
    if scan.section == Section::Over {
        scan
    } else if is_heading(line) {
        TemplateScan {
            section: if t == "services:"@ {
                Section::Services
            } else if t == "volumes:"@ {
                Section::Volumes
            } else if t == "networks:"@ {
                Section::Over
            } else {
                Section::Other
            },
            services: scan.services,
            volumes: scan.volumes,
        }
    } else if scan.section == Section::Services && line.len() > 0 {
        TemplateScan {
            section: scan.section,
            services: scan.services + line + seq!['\n'],
            volumes: scan.volumes,
        }
    } else if scan.section == Section::Volumes && line.len() > 0 && "  "@.is_prefix_of(line) && !(
    t.len() > 0 && t[0] == '-') {
        TemplateScan {
            section: scan.section,
            services: scan.services,
            volumes: scan.volumes + line + seq!['\n'],
        }
    } else {
        scan
    }
}

pub open spec fn template_scan(lines: Seq<Seq<char>>, n: int) -> TemplateScan
    decreases n,
{
    if n <= 0 {
        TemplateScan { section: Section::Other, services: Seq::empty(), volumes: Seq::empty() }
    } else {
        template_step(template_scan(lines, n - 1), lines[n - 1])
    }
}

/// The parts of a template.
pub open spec fn template_parts(content: Seq<char>) -> Parts {
    let scan = template_scan(lines_of(content), lines_of(content).len() as int);
    Parts { services: scan.services, volumes: scan.volumes }
}

/// Takes a template apart: the lines of its `services` section and the
/// declarations of its `volumes` section.
pub fn parse_template(content: &str) -> (parts: TemplateContent)
    ensures
        parts@ == template_parts(content@),
{
    let lines = split_lines(&chars_of(content));
    let services_heading = chars_of("services:");
    let volumes_heading = chars_of("volumes:");
    let networks_heading = chars_of("networks:");
    let indent = chars_of("  ");
    let ghost all = texts(lines@);
    let mut section = Section::Other;
    let mut services: Vec<char> = Vec::new();
    let mut volumes: Vec<char> = Vec::new();
    let mut i: usize = 0;
    while i < lines.len()
        invariant
            i <= lines.len(),
            all == texts(lines@),
            services_heading@ == "services:"@,
            volumes_heading@ == "volumes:"@,
            networks_heading@ == "networks:"@,
            indent@ == "  "@,
            template_scan(all, i as int) == (TemplateScan {
                section,
                services: services@,
                volumes: volumes@,
            }),
        decreases lines.len() - i,
    {
        let line = chars_of(lines[i].as_str());
        assert(all[i as int] == line@);
        let t = trim(&line);
        let ghost services_before = services@;
        let ghost volumes_before = volumes@;
        proof {
            crate::text::lemma_skip_spaces(line@, 0);
            crate::text::lemma_back_spaces(line@, line@.len() as int);
            assert(t@.len() > 0 ==> line@.len() > 0);
        }
        if section == Section::Over {
        } else if t.len() > 0 && line.len() > 0 && line[0] != ' ' && line[0] != '\t' {
            if same_text(&t, &services_heading) {
                section = Section::Services;
            } else if same_text(&t, &volumes_heading) {
                section = Section::Volumes;
            } else if same_text(&t, &networks_heading) {
                section = Section::Over;
            } else {
                section = Section::Other;
            }
        } else if section == Section::Services && line.len() > 0 {
            extend_chars(&mut services, &line);
            services.push('\n');
            assert(services@ =~= services_before + line@ + seq!['\n']);
        } else if section == Section::Volumes && line.len() > 0 && has_prefix(&line, &indent) && !(
        t.len() > 0 && t[0] == '-') {
            extend_chars(&mut volumes, &line);
            volumes.push('\n');
            assert(volumes@ =~= volumes_before + line@ + seq!['\n']);
        }
        i += 1;
    }
    TemplateContent { services: string_of(&services), volumes: string_of(&volumes) }
}

/// Whether the reverse proxy serves a service: it does, except for the
/// databases.
pub fn is_http_service(service: &str) -> (b: bool)
    ensures
        b == !(service@ == "postgres"@ || service@ == "redis"@),
{
    let name = chars_of(service);
    !(same_text(&name, &chars_of("postgres")) || same_text(&name, &chars_of("redis")))
}

/// Whether a service is one of the known web services.
pub fn is_known_http_service(service: &str) -> (b: bool)
    ensures
        b == (service@ == "n8n"@ || service@ == "chroma"@ || service@ == "surrealdb"@ || service@
            == "ollama"@),
{
    let name = chars_of(service);
    same_text(&name, &chars_of("n8n")) || same_text(&name, &chars_of("chroma")) || same_text(
        &name,
        &chars_of("surrealdb"),
    ) || same_text(&name, &chars_of("ollama"))
}

/// The port on which a service listens inside its container.
pub open spec fn container_port_of(service: Seq<char>) -> nat {
    if service == "postgres"@ {
        5432
    } else if service == "redis"@ {
        6379
    } else if service == "surrealdb"@ {
        8000
    } else if service == "chroma"@ {
        8000
    } else if service == "ollama"@ {
        11434
    } else if service == "n8n"@ {
        5678
    } else {
        8080
    }
}

/// The port on which a service listens inside its container, in decimal.
/// The project's port offset moves host ports only, so it does not count
/// here.
pub fn get_service_port(service: &str, _port_offset: u16) -> (port: String)
    ensures
        port@ == decimal_text(container_port_of(service@)),
{
    let name = chars_of(service);
    let base: u64 = if same_text(&name, &chars_of("postgres")) {
        5432
    } else if same_text(&name, &chars_of("redis")) {
        6379
    } else if same_text(&name, &chars_of("surrealdb")) {
        8000
    } else if same_text(&name, &chars_of("chroma")) {
        8000
    } else if same_text(&name, &chars_of("ollama")) {
        11434
    } else if same_text(&name, &chars_of("n8n")) {
        5678
    } else {
        8080
    };
    string_of(&decimal_chars(base))
}

/// A database's host port for a project with a port offset; `None` when the
/// port would lie above 65535.
pub fn offset_port(base: u16, offset: u16) -> (port: Option<u16>)
    ensures
        port == if base + offset <= 65535 {
            Some((base + offset) as u16)
        } else {
            None
        },
{
    let sum: u32 = base as u32 + offset as u32;
    if sum <= 65535 {
        Some(sum as u16)
    } else {
        None
    }
}

/// The settings with the paths written relative to the configuration
/// directory.
pub open spec fn relative_paths(content: Seq<char>) -> Seq<char> {
    let a = replaced(content, "./projects"@, "projects"@);
    let b = replaced(a, "./templates"@, "templates"@);
    let c = replaced(b, "./init"@, "init"@);
    let d = replaced(c, "./caddy/projects"@, "caddy/projects"@);
    replaced(d, "./caddy/certs"@, "caddy/certs"@)
}

fn replace_text(content: &Vec<char>, pattern: &str, with: &str) -> (out: Vec<char>)
    ensures
        out@ == replaced(content@, pattern@, with@),
{
    replace_all(content, &chars_of(pattern), &chars_of(with))
}

/// Update paths in the settings to be relative to the configuration
/// directory
pub fn update_config_paths(content: &str) -> (updated: String)
    ensures
        updated@ == relative_paths(content@),
{
    proof {
        reveal_strlit("./projects");
        reveal_strlit("./templates");
        reveal_strlit("./init");
        reveal_strlit("./caddy/projects");
        reveal_strlit("./caddy/certs");
    }
    let a = replace_text(&chars_of(content), "./projects", "projects");
    let b = replace_text(&a, "./templates", "templates");
    let c = replace_text(&b, "./init", "init");
    let d = replace_text(&c, "./caddy/projects", "caddy/projects");
    let e = replace_text(&d, "./caddy/certs", "caddy/certs");
    string_of(&e)
}

/// The setting that a line of an environment file makes: the name before
/// the first `=` and the value after it, both trimmed. Blank lines, comments
/// and lines without `=` make none.
pub open spec fn setting_of(line: Seq<char>) -> Option<(Seq<char>, Seq<char>)> {
    let t = trimmed(line);
    let at = crate::search::find_from(t, seq!['='], 0);
    if t.len() > 0 && t[0] != '#' && at < t.len() {
        Some((trimmed(t.subrange(0, at)), trimmed(t.subrange(at + 1, t.len() as int))))
    } else {
        None
    }
}

/// The settings that the first `n` lines make, in order.
pub open spec fn settings_in(lines: Seq<Seq<char>>, n: int) -> Seq<(Seq<char>, Seq<char>)>
    decreases n,
{
    if n <= 0 {
        Seq::empty()
    } else {
        match setting_of(lines[n - 1]) {
            Some(s) => settings_in(lines, n - 1).push(s),
            None => settings_in(lines, n - 1),
        }
    }
}

/// The settings of an environment file, in the order of the file. A name
/// that is set again counts with its last value.
pub fn parse_env(content: &str) -> (settings: Vec<(String, String)>)
    ensures
        pair_texts(settings@) == settings_in(
            lines_of(content@),
            lines_of(content@).len() as int,
        ),
{
    let lines = split_lines(&chars_of(content));
    let ghost all = texts(lines@);
    let mut equals: Vec<char> = Vec::new();
    equals.push('=');
    assert(equals@ =~= seq!['=']);
    let mut settings: Vec<(String, String)> = Vec::new();
    let mut i: usize = 0;
    assert(pair_texts(settings@) =~= Seq::<(Seq<char>, Seq<char>)>::empty());
    while i < lines.len()
        invariant
            i <= lines.len(),
            all == texts(lines@),
            equals@ == seq!['='],
            pair_texts(settings@) == settings_in(all, i as int),
        decreases lines.len() - i,
    {
        let t = trim(&chars_of(lines[i].as_str()));
        assert(all[i as int] == lines@[i as int]@);
        let at = crate::search::find(&t, &equals, 0);
        if t.len() > 0 && t[0] != '#' && at < t.len() {
            let name = string_of(&trim(&crate::text::slice_of(&t, 0, at)));
            let value = string_of(&trim(&crate::text::slice_of(&t, at + 1, t.len())));
            let setting = (name, value);
            assert(pair_texts(settings@.push(setting)) =~= pair_texts(settings@).push(
                (setting.0@, setting.1@),
            ));
            settings.push(setting);
        }
        i += 1;
    }
    settings
}

} // verus!

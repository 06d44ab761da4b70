//! A project's configuration and what follows from it when the project is
//! brought up: the domains it needs, the entry it gets in the registry, and
//! the routes that the reverse proxy is told.
use crate::compose::{container_name_of, ComposeInfo, Service};
use crate::registry::{conflict_views, conflicts, put, Entry, PortRegistry, ProjectEntry};
use crate::search::{replace_all, replaced};
use crate::text::{chars_of, decimal_chars, decimal_text, extend_chars, pair_texts, push_str, string_of, texts};
use vstd::prelude::*;

verus! {

/// Project information
#[derive(Debug)]
pub struct ProjectInfo {
    pub name: String,
    pub path: Option<String>,
    pub domain: String,
    /// Path to the compose manifest, relative to the project directory
    pub compose_file: String,
}

/// Network configuration
#[derive(Debug)]
pub struct NetworkConfig {
    pub name: String,
}

/// Reverse proxy configuration of the project: custom routes, each from a
/// subdomain to `container:port`.
#[derive(Debug)]
pub struct CaddyConfig {
    pub routes: Vec<(String, String)>,
}

/// Project configuration
#[derive(Debug)]
pub struct ProjectConfig {
    pub project: ProjectInfo,
    pub network: NetworkConfig,
    pub caddy: CaddyConfig,
}

/// Global settings section
#[derive(Debug)]
pub struct GlobalSettings {
    pub caddy_network: String,
    pub caddy_projects_dir: String,
    pub caddy_certs_dir: String,
    /// Enable HTTPS for projects
    pub enable_https: bool,
}

/// Default settings section
#[derive(Debug)]
pub struct DefaultSettings {
    pub timezone: Option<String>,
}

/// Network definition for custom networks
#[derive(Debug)]
pub struct NetworkDefinition {
    pub driver: Option<String>,
    pub subnet: Option<String>,
    pub gateway: Option<String>,
}

/// Global configuration structure
#[derive(Debug)]
pub struct GlobalConfig {
    pub global: GlobalSettings,
    pub defaults: DefaultSettings,
    pub networks: Vec<(String, NetworkDefinition)>,
}

/// Default compose manifest name
pub fn default_compose_file() -> (name: String)
    ensures
        name@ == "docker-compose.yml"@,
{
    "docker-compose.yml".to_owned()
}

/// `sub.domain`
pub open spec fn subdomain(sub: Seq<char>, domain: Seq<char>) -> Seq<char> {
    sub + seq!['.'] + domain
}

/// The domains of the first `n` custom routes.
pub open spec fn route_domains(routes: Seq<(Seq<char>, Seq<char>)>, domain: Seq<char>, n: int) -> Seq<
    Seq<char>,
>
    decreases n,
{
    if n <= 0 {
        Seq::empty()
    } else {
        route_domains(routes, domain, n - 1).push(subdomain(routes[n - 1].0, domain))
    }
}

/// The domains of those of the first `n` services that expose a container
/// port.
pub open spec fn service_domains(services: Seq<Service>, domain: Seq<char>, n: int) -> Seq<
    Seq<char>,
>
    decreases n,
{
    if n <= 0 {
        Seq::empty()
    } else if services[n - 1].container_ports.len() > 0 {
        service_domains(services, domain, n - 1).push(subdomain(services[n - 1].name, domain))
    } else {
        service_domains(services, domain, n - 1)
    }
}

/// The domains that a project needs: its main domain, then one subdomain
/// for each custom route or, when there is no custom route, one for each
/// service that exposes a container port.
pub open spec fn wanted_domains(
    domain: Seq<char>,
    routes: Seq<(Seq<char>, Seq<char>)>,
    services: Seq<Service>,
) -> Seq<Seq<char>> {
    if routes.len() > 0 {
        seq![domain] + route_domains(routes, domain, routes.len() as int)
    } else {
        seq![domain] + service_domains(services, domain, services.len() as int)
    }
}

/// `sub.domain` as a string.
pub fn make_subdomain(sub: &str, domain: &str) -> (name: String)
    ensures
        name@ == subdomain(sub@, domain@),
{
    let mut chars = chars_of(sub);
    chars.push('.');
    extend_chars(&mut chars, &chars_of(domain));
    assert(chars@ =~= subdomain(sub@, domain@));
    string_of(&chars)
}

/// The domains that a project needs.
pub fn project_domains(config: &ProjectConfig, compose: &ComposeInfo) -> (domains: Vec<String>)
    ensures
        texts(domains@) == wanted_domains(
            config.project.domain@,
            pair_texts(config.caddy.routes@),
            compose@,
        ),
{
    let domain = config.project.domain.as_str();
    let ghost routes = pair_texts(config.caddy.routes@);
    let mut domains: Vec<String> = Vec::new();
    let main = config.project.domain.clone();
    assert(texts(domains@.push(main)) =~= seq![domain@]);
    domains.push(main);
    if config.caddy.routes.len() > 0 {
        let mut i: usize = 0;
        assert(texts(domains@) =~= seq![domain@] + route_domains(routes, domain@, 0));
        while i < config.caddy.routes.len()
            invariant
                i <= config.caddy.routes.len(),
                routes == pair_texts(config.caddy.routes@),
                domain@ == config.project.domain@,
                texts(domains@) == seq![domain@] + route_domains(routes, domain@, i as int),
            decreases config.caddy.routes.len() - i,
        {
            let name = make_subdomain(config.caddy.routes[i].0.as_str(), domain);
            assert(routes[i as int].0 == config.caddy.routes@[i as int].0@);
            assert(texts(domains@.push(name)) =~= texts(domains@).push(name@));
            assert(seq![domain@] + route_domains(routes, domain@, i + 1) =~= (seq![domain@]
                + route_domains(routes, domain@, i as int)).push(name@));
            domains.push(name);
            i += 1;
        }
    } else {
        let mut i: usize = 0;
        assert(texts(domains@) =~= seq![domain@] + service_domains(compose@, domain@, 0));
        while i < compose.services.len()
            invariant
                i <= compose.services.len(),
                domain@ == config.project.domain@,
                texts(domains@) == seq![domain@] + service_domains(compose@, domain@, i as int),
            decreases compose.services.len() - i,
        {
            let service = &compose.services[i];
            assert(compose@[i as int] == service@);
            if service.container_ports.len() > 0 {
                let name = make_subdomain(service.name.as_str(), domain);
                assert(texts(domains@.push(name)) =~= texts(domains@).push(name@));
                assert(seq![domain@] + service_domains(compose@, domain@, i + 1) =~= (seq![domain@]
                    + service_domains(compose@, domain@, i as int)).push(name@));
                domains.push(name);
            }
            i += 1;
        }
    }
    domains
}

/// What bringing a project up does to the registry: nothing when one of its
/// host ports is held by another project; otherwise its entry is put in.
pub ghost struct UpOutcome {
    pub registry: Seq<Entry>,
    pub conflicts: Seq<(u16, Seq<char>)>,
}

/// The registry after project `entry.name` was brought up with the host
/// ports `entry.ports`, and the conflicts that were found.
pub open spec fn brought_up(reg: Seq<Entry>, entry: Entry) -> UpOutcome {
    let found = conflicts(reg, entry.name, entry.ports, entry.ports.len() as int);
    if found.len() > 0 {
        UpOutcome { registry: reg, conflicts: found }
    } else {
        UpOutcome { registry: put(reg, entry), conflicts: found }
    }
}

/// Registers a project unless one of its host ports is held by another
/// project. Returns the conflicts; the project is registered exactly if
/// there is none.
pub fn register_unless_conflict(registry: &mut PortRegistry, entry: ProjectEntry) -> (found: Vec<
    (u16, String),
>)
    ensures
        final(registry)@ == brought_up(old(registry)@, entry@).registry,
        conflict_views(found@) == brought_up(old(registry)@, entry@).conflicts,
        old(registry).wf() ==> final(registry).wf(),
{
    let found = registry.check_port_conflicts(entry.name.as_str(), entry.ports.as_slice());
    if found.len() == 0 {
        registry.register_project(entry);
    }
    found
}

/// The entry under which a project is registered: its host ports are those
/// of the manifest, its containers those of the services.
pub fn project_entry(config: &ProjectConfig, path: &str, compose: &ComposeInfo) -> (entry:
    ProjectEntry)
    ensures
        entry@.name == config.project.name@,
        entry@.path == path@,
        entry@.domain == config.project.domain@,
        entry@.network == config.network.name@,
        crate::compose::strictly_ascending(entry@.ports),
        forall|p: u16| entry@.ports.contains(p) <==> crate::compose::publishes(compose@, p),
        entry@.containers == crate::compose::container_names(compose@, config.project.name@),
{
    ProjectEntry {
        name: config.project.name.clone(),
        path: path.to_owned(),
        domain: config.project.domain.clone(),
        network: config.network.name.clone(),
        ports: compose.get_all_host_ports(),
        containers: compose.get_all_container_names(config.project.name.as_str()),
    }
}

// ---------------------------------------------------------------------------
// Routes for the reverse proxy
// ---------------------------------------------------------------------------

/// How a site is secured.
#[derive(Clone, Copy, Debug, PartialEq, Eq, Structural)]
pub enum TlsMode {
    /// Plain HTTP.
    Off,
    /// The certificate and key of the project.
    ProjectCertificate,
    /// A certificate that the proxy makes itself.
    Internal,
}

/// HTTPS is off unless enabled; when it is on, the project's certificate is
/// used if both of its files are there, and the proxy's own otherwise.
pub fn tls_mode(enable_https: bool, has_certificate: bool, has_key: bool) -> (mode: TlsMode)
    ensures
        mode == if !enable_https {
            TlsMode::Off
        } else if has_certificate && has_key {
            TlsMode::ProjectCertificate
        } else {
            TlsMode::Internal
        },
{
    if !enable_https {
        TlsMode::Off
    } else if has_certificate && has_key {
        TlsMode::ProjectCertificate
    } else {
        TlsMode::Internal
    }
}

/// The name of a domain's certificate files: the domain with `_` for `.`.
pub open spec fn certificate_name(domain: Seq<char>) -> Seq<char> {
    replaced(domain, seq!['.'], seq!['_'])
}

/// The name of a domain's certificate files.
pub fn cert_name(domain: &str) -> (name: String)
    ensures
        name@ == certificate_name(domain@),
{
    let mut dot: Vec<char> = Vec::new();
    dot.push('.');
    let mut line: Vec<char> = Vec::new();
    line.push('_');
    assert(dot@ =~= seq!['.'] && line@ =~= seq!['_']);
    string_of(&replace_all(&chars_of(domain), &dot, &line))
}

/// The `tls` line of a site.
pub open spec fn tls_line(mode: TlsMode, domain: Seq<char>) -> Seq<char> {
    match mode {
        TlsMode::Off => Seq::empty(),
        TlsMode::ProjectCertificate => "    tls /certs/"@ + certificate_name(domain) + ".crt /certs/"@
            + certificate_name(domain) + ".key\n"@,
        TlsMode::Internal => "    tls internal\n"@,
    }
}

/// One site: the domain, the `tls` line, and the target.
pub open spec fn site_text(site: Seq<char>, tls: Seq<char>, target: Seq<char>) -> Seq<char> {
    site + " {\n"@ + tls + "    reverse_proxy "@ + target + "\n}\n\n"@
}

/// The sites of the first `n` custom routes.
pub open spec fn route_sites(
    routes: Seq<(Seq<char>, Seq<char>)>,
    domain: Seq<char>,
    tls: Seq<char>,
    n: int,
) -> Seq<char>
    decreases n,
{
    if n <= 0 {
        Seq::empty()
    } else {
        route_sites(routes, domain, tls, n - 1) + site_text(
            subdomain(routes[n - 1].0, domain),
            tls,
            routes[n - 1].1,
        )
    }
}

/// The sites of those of the first `n` services that expose a container
/// port: each is proxied to its container at the first of its ports.
pub open spec fn service_sites(
    services: Seq<Service>,
    project: Seq<char>,
    domain: Seq<char>,
    tls: Seq<char>,
    n: int,
) -> Seq<char>
    decreases n,
{
    if n <= 0 {
        Seq::empty()
    } else if services[n - 1].container_ports.len() > 0 {
        service_sites(services, project, domain, tls, n - 1) + site_text(
            subdomain(services[n - 1].name, domain),
            tls,
            container_name_of(services[n - 1], project) + seq![':'] + decimal_text(
                services[n - 1].container_ports[0] as nat,
            ),
        )
    } else {
        service_sites(services, project, domain, tls, n - 1)
    }
}

/// The proxy configuration of a project.
pub open spec fn proxy_config_text(
    project: Seq<char>,
    domain: Seq<char>,
    routes: Seq<(Seq<char>, Seq<char>)>,
    services: Seq<Service>,
    mode: TlsMode,
) -> Seq<char> {
    let tls = tls_line(mode, domain);
    "# Auto-generated Caddy configuration for "@ + project + "\n# Domain: "@ + domain + "\n\n"@ + (
    if routes.len() > 0 {
        route_sites(routes, domain, tls, routes.len() as int)
    } else {
        service_sites(services, project, domain, tls, services.len() as int)
    })
}

fn push_site(out: &mut Vec<char>, site: &Vec<char>, tls: &Vec<char>, target: &Vec<char>)
    ensures
        final(out)@ == old(out)@ + site_text(site@, tls@, target@),
{
    extend_chars(out, site);
    push_str(out, " {\n");
    extend_chars(out, tls);
    push_str(out, "    reverse_proxy ");
    extend_chars(out, target);
    push_str(out, "\n}\n\n");
    assert(out@ =~= old(out)@ + site_text(site@, tls@, target@));
}

/// The proxy configuration of a project: one site for each custom route
/// or, when there is none, one for each service that exposes a container
/// port.
pub fn generate_caddy_config(config: &ProjectConfig, compose: &ComposeInfo, mode: TlsMode) -> (text:
    String)
    ensures
        text@ == proxy_config_text(
            config.project.name@,
            config.project.domain@,
            pair_texts(config.caddy.routes@),
            compose@,
            mode,
        ),
{
    let project = config.project.name.as_str();
    let domain = config.project.domain.as_str();
    let ghost routes = pair_texts(config.caddy.routes@);
    let mut tls: Vec<char> = Vec::new();
    match mode {
        TlsMode::Off => {},
        TlsMode::ProjectCertificate => {
            let name = cert_name(domain);
            push_str(&mut tls, "    tls /certs/");
            push_str(&mut tls, name.as_str());
            push_str(&mut tls, ".crt /certs/");
            push_str(&mut tls, name.as_str());
            push_str(&mut tls, ".key\n");
        },
        TlsMode::Internal => {
            push_str(&mut tls, "    tls internal\n");
        },
    }
    assert(tls@ =~= tls_line(mode, domain@));
    let mut out: Vec<char> = Vec::new();
    push_str(&mut out, "# Auto-generated Caddy configuration for ");
    push_str(&mut out, project);
    push_str(&mut out, "\n# Domain: ");
    push_str(&mut out, domain);
    push_str(&mut out, "\n\n");
    let ghost head = out@;
    assert(head =~= "# Auto-generated Caddy configuration for "@ + project@ + "\n# Domain: "@
        + domain@ + "\n\n"@);
    if config.caddy.routes.len() > 0 {
        let mut i: usize = 0;
        assert(out@ =~= head + route_sites(routes, domain@, tls@, 0));
        while i < config.caddy.routes.len()
            invariant
                i <= config.caddy.routes.len(),
                routes == pair_texts(config.caddy.routes@),
                domain@ == config.project.domain@,
                out@ == head + route_sites(routes, domain@, tls@, i as int),
            decreases config.caddy.routes.len() - i,
        {
            let route = &config.caddy.routes[i];
            assert(routes[i as int] == (route.0@, route.1@));
            let site = make_subdomain(route.0.as_str(), domain);
            let ghost before = out@;
            push_site(&mut out, &chars_of(site.as_str()), &tls, &chars_of(route.1.as_str()));
            assert(out@ =~= head + route_sites(routes, domain@, tls@, i + 1));
            i += 1;
        }
    } else {
        let mut i: usize = 0;
        assert(out@ =~= head + service_sites(compose@, project@, domain@, tls@, 0));
        while i < compose.services.len()
            invariant
                i <= compose.services.len(),
                domain@ == config.project.domain@,
                project@ == config.project.name@,
                out@ == head + service_sites(compose@, project@, domain@, tls@, i as int),
            decreases compose.services.len() - i,
        {
            let service = &compose.services[i];
            assert(compose@[i as int] == service@);
            if service.container_ports.len() > 0 {
                let site = make_subdomain(service.name.as_str(), domain);
                let mut target: Vec<char> = match &service.container_name {
                    Some(c) => chars_of(c.as_str()),
                    None => {
                        let mut chars = chars_of(project);
                        chars.push('-');
                        extend_chars(&mut chars, &chars_of(service.name.as_str()));
                        chars.push('-');
                        chars.push('1');
                        assert(chars@ =~= project@ + seq!['-'] + service.name@ + seq!['-', '1']);
                        chars
                    },
                };
                assert(target@ == container_name_of(service@, project@));
                target.push(':');
                extend_chars(&mut target, &decimal_chars(service.container_ports[0] as u64));
                assert(target@ =~= container_name_of(service@, project@) + seq![':'] + decimal_text(
                    service@.container_ports[0] as nat,
                ));
                push_site(&mut out, &chars_of(site.as_str()), &tls, &target);
                assert(out@ =~= head + service_sites(compose@, project@, domain@, tls@, i + 1));
            }
            i += 1;
        }
    }
    string_of(&out)
}

} // verus!

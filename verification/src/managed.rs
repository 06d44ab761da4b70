//! Managed projects: projects whose services are started from templates
//! that are kept in the configuration directory.
use crate::project::{cert_name, certificate_name, make_subdomain, subdomain};
use crate::template::{container_port_of, get_service_port, is_http_service, is_known_http_service};
use crate::text::{chars_of, decimal_chars, decimal_text, extend_chars, pair_texts, push_str, same_text, string_of, texts};
use vstd::prelude::*;

verus! {

/// What a project says of one of its services.
#[derive(Debug)]
pub struct ServiceConfig {
    pub enabled: bool,
    pub version: Option<String>,
}

/// A route of the reverse proxy: a subdomain of the project's domain, or a
/// domain of its own, and where its requests go.
#[derive(Debug)]
pub struct CaddyRoute {
    pub domain: Option<String>,
    pub subdomain: Option<String>,
    pub target: String,
}

/// A managed project.
#[derive(Debug)]
pub struct ManagedProject {
    pub name: String,
    pub domain: String,
    /// `managed` or `proxy-only`
    pub mode: String,
    pub port_offset: u16,
    pub services: Vec<(String, ServiceConfig)>,
    pub network: String,
    pub auto_subdomains: bool,
    pub routes: Vec<CaddyRoute>,
}

/// A route.
pub ghost struct Route {
    pub domain: Option<Seq<char>>,
    pub subdomain: Option<Seq<char>>,
    pub target: Seq<char>,
}

/// A managed project.
pub ghost struct Managed {
    pub name: Seq<char>,
    pub domain: Seq<char>,
    pub mode: Seq<char>,
    pub services: Seq<(Seq<char>, bool)>,
    pub auto_subdomains: bool,
    pub routes: Seq<Route>,
}

impl View for CaddyRoute {
    type V = Route;

    open spec fn view(&self) -> Route {
        Route {
            domain: match self.domain {
                Some(d) => Some(d@),
                None => None,
            },
            subdomain: match self.subdomain {
                Some(s) => Some(s@),
                None => None,
            },
            target: self.target@,
        }
    }
}

pub open spec fn service_views(v: Seq<(String, ServiceConfig)>) -> Seq<(Seq<char>, bool)> {
    v.map_values(|s: (String, ServiceConfig)| (s.0@, s.1.enabled))
}

pub open spec fn route_views(v: Seq<CaddyRoute>) -> Seq<Route> {
    v.map_values(|r: CaddyRoute| r@)
}

impl View for ManagedProject {
    type V = Managed;

    open spec fn view(&self) -> Managed {
        Managed {
            name: self.name@,
            domain: self.domain@,
            mode: self.mode@,
            services: service_views(self.services@),
            auto_subdomains: self.auto_subdomains,
            routes: route_views(self.routes@),
        }
    }
}

/// Whether the services of the project get subdomains of their own.
pub open spec fn serves_subdomains(p: Managed) -> bool {
    p.mode == "managed"@ && p.auto_subdomains
}

/// Whether the routes of the project count.
pub open spec fn serves_routes(p: Managed) -> bool {
    p.mode == "proxy-only"@ || p.routes.len() > 0
}

/// Whether a service is one of the four known web services.
pub open spec fn is_known_web(service: Seq<char>) -> bool {
    service == "n8n"@ || service == "chroma"@ || service == "surrealdb"@ || service == "ollama"@
}

/// Whether the reverse proxy serves a service.
pub open spec fn is_web(service: Seq<char>) -> bool {
    !(service == "postgres"@ || service == "redis"@)
}

/// The subdomains of those of the first `n` services that are enabled and
/// known web services.
pub open spec fn web_domains(services: Seq<(Seq<char>, bool)>, domain: Seq<char>, n: int) -> Seq<
    Seq<char>,
>
    decreases n,
{
    if n <= 0 {
        Seq::empty()
    } else if services[n - 1].1 && is_known_web(services[n - 1].0) {
        web_domains(services, domain, n - 1).push(subdomain(services[n - 1].0, domain))
    } else {
        web_domains(services, domain, n - 1)
    }
}

/// The domain that a route adds to those of the project: its subdomain of
/// the project's domain, or its own domain unless that is the project's.
pub open spec fn route_domain(route: Route, domain: Seq<char>) -> Option<Seq<char>> {
    match route.subdomain {
        Some(sub) => Some(subdomain(sub, domain)),
        None => match route.domain {
            Some(d) => if d != domain {
                Some(d)
            } else {
                None
            },
            None => None,
        },
    }
}

/// The domains of the first `n` routes.
pub open spec fn routes_domains(routes: Seq<Route>, domain: Seq<char>, n: int) -> Seq<Seq<char>>
    decreases n,
{
    if n <= 0 {
        Seq::empty()
    } else {
        match route_domain(routes[n - 1], domain) {
            Some(d) => routes_domains(routes, domain, n - 1).push(d),
            None => routes_domains(routes, domain, n - 1),
        }
    }
}

/// Every domain of a managed project: its own, those of its web services,
/// and those of its routes.
pub open spec fn all_domains(p: Managed) -> Seq<Seq<char>> {
    seq![p.domain] + (if serves_subdomains(p) {
        web_domains(p.services, p.domain, p.services.len() as int)
    } else {
        Seq::empty()
    }) + (if serves_routes(p) {
        routes_domains(p.routes, p.domain, p.routes.len() as int)
    } else {
        Seq::empty()
    })
}

fn is_mode(project: &ManagedProject, mode: &str) -> (b: bool)
    ensures
        b == (project.mode@ == mode@),
{
    same_text(&chars_of(project.mode.as_str()), &chars_of(mode))
}

/// Every domain of a managed project.
pub fn managed_domains(project: &ManagedProject) -> (domains: Vec<String>)
    ensures
        texts(domains@) == all_domains(project@),
{
    let domain = project.domain.as_str();
    let ghost p = project@;
    let mut domains: Vec<String> = Vec::new();
    let main = project.domain.clone();
    assert(texts(domains@.push(main)) =~= seq![p.domain]);
    domains.push(main);
    let ghost head = texts(domains@);
    let ghost web = if serves_subdomains(p) {
        web_domains(p.services, p.domain, p.services.len() as int)
    } else {
        Seq::empty()
    };
    if is_mode(project, "managed") && project.auto_subdomains {
        let mut i: usize = 0;
        assert(texts(domains@) =~= head + web_domains(p.services, p.domain, 0));
        while i < project.services.len()
            invariant
                i <= project.services.len(),
                p == project@,
                domain@ == p.domain,
                texts(domains@) == head + web_domains(p.services, p.domain, i as int),
            decreases project.services.len() - i,
        {
            let service = &project.services[i];
            assert(p.services[i as int] == (service.0@, service.1.enabled));
            if service.1.enabled && is_known_http_service(service.0.as_str()) {
                let name = make_subdomain(service.0.as_str(), domain);
                assert(texts(domains@.push(name)) =~= texts(domains@).push(name@));
                assert(head + web_domains(p.services, p.domain, i + 1) =~= (head + web_domains(
                    p.services,
                    p.domain,
                    i as int,
                )).push(name@));
                domains.push(name);
            }
            i += 1;
        }
    }
    assert(texts(domains@) =~= head + web);
    if is_mode(project, "proxy-only") || project.routes.len() > 0 {
        let mut i: usize = 0;
        assert(texts(domains@) =~= head + web + routes_domains(p.routes, p.domain, 0));
        while i < project.routes.len()
            invariant
                i <= project.routes.len(),
                p == project@,
                domain@ == p.domain,
                texts(domains@) == head + web + routes_domains(p.routes, p.domain, i as int),
            decreases project.routes.len() - i,
        {
            let route = &project.routes[i];
            assert(p.routes[i as int] == route@);
            let added: Option<String> = match &route.subdomain {
                Some(sub) => Some(make_subdomain(sub.as_str(), domain)),
                None => match &route.domain {
                    Some(d) => if !same_text(&chars_of(d.as_str()), &chars_of(domain)) {
                        Some(d.clone())
                    } else {
                        None
                    },
                    None => None,
                },
            };
            match added {
                Some(name) => {
                    assert(texts(domains@.push(name)) =~= texts(domains@).push(name@));
                    assert(head + web + routes_domains(p.routes, p.domain, i + 1) =~= (head + web
                        + routes_domains(p.routes, p.domain, i as int)).push(name@));
                    domains.push(name);
                },
                None => {},
            }
            i += 1;
        }
    } else {
        assert(texts(domains@) =~= head + web + Seq::<Seq<char>>::empty());
    }
    domains
}

/// The block of a managed project for the hosts file, with all of its
/// domains.
pub fn generate_entry(label: &str, project: &ManagedProject) -> (entry: String)
    ensures
        entry@ == crate::diff::entry_text(label@, all_domains(project@)),
{
    crate::diff::hosts_entry(label, &managed_domains(project))
}

/// One site of the proxy configuration.
pub open spec fn site(name: Seq<char>, cert: Seq<char>, target: Seq<char>) -> Seq<char> {
    name + " {\n    tls /certs/"@ + cert + ".crt /certs/"@ + cert + ".key\n    reverse_proxy "@
        + target + "\n}\n\n"@
}

/// The sites of those of the first `n` services that are enabled and served
/// by the proxy: each is proxied to the container `<project>-<service>` at
/// the service's port.
pub open spec fn service_sites(p: Managed, n: int) -> Seq<char>
    decreases n,
{
    if n <= 0 {
        Seq::empty()
    } else if p.services[n - 1].1 && is_web(p.services[n - 1].0) {
        service_sites(p, n - 1) + site(
            subdomain(p.services[n - 1].0, p.domain),
            certificate_name(p.domain),
            p.name + seq!['-'] + p.services[n - 1].0 + seq![':'] + decimal_text(
                container_port_of(p.services[n - 1].0),
            ),
        )
    } else {
        service_sites(p, n - 1)
    }
}

/// The name of a route's site: its subdomain of the project's domain, or
/// its own domain.
pub open spec fn route_site_name(route: Route, domain: Seq<char>) -> Option<Seq<char>> {
    match route.subdomain {
        Some(sub) => Some(subdomain(sub, domain)),
        None => route.domain,
    }
}

/// The sites of the first `n` routes.
pub open spec fn route_sites(p: Managed, n: int) -> Seq<char>
    decreases n,
{
    if n <= 0 {
        Seq::empty()
    } else {
        match route_site_name(p.routes[n - 1], p.domain) {
            Some(name) => route_sites(p, n - 1) + site(
                name,
                certificate_name(p.domain),
                p.routes[n - 1].target,
            ),
            None => route_sites(p, n - 1),
        }
    }
}

/// The proxy configuration of a managed project. `label` is the name
/// under which the project is kept.
pub open spec fn managed_proxy_text(label: Seq<char>, p: Managed) -> Seq<char> {
    "# Auto-generated Caddy configuration for "@ + label + "\n# Domain: "@ + p.domain + "\n\n"@ + (
    if serves_subdomains(p) {
        service_sites(p, p.services.len() as int)
    } else {
        Seq::empty()
    }) + (if serves_routes(p) {
        route_sites(p, p.routes.len() as int)
    } else {
        Seq::empty()
    })
}

fn push_site(out: &mut Vec<char>, name: &Vec<char>, cert: &str, target: &Vec<char>)
    ensures
        final(out)@ == old(out)@ + site(name@, cert@, target@),
{
    extend_chars(out, name);
    push_str(out, " {\n    tls /certs/");
    push_str(out, cert);
    push_str(out, ".crt /certs/");
    push_str(out, cert);
    push_str(out, ".key\n    reverse_proxy ");
    extend_chars(out, target);
    push_str(out, "\n}\n\n");
    assert(out@ =~= old(out)@ + site(name@, cert@, target@));
}

/// The proxy configuration of a managed project.
pub fn managed_caddy_config(label: &str, project: &ManagedProject) -> (text: String)
    ensures
        text@ == managed_proxy_text(label@, project@),
{
    let ghost p = project@;
    let domain = project.domain.as_str();
    let cert = cert_name(domain);
    let mut out: Vec<char> = Vec::new();
    push_str(&mut out, "# Auto-generated Caddy configuration for ");
    push_str(&mut out, label);
    push_str(&mut out, "\n# Domain: ");
    push_str(&mut out, domain);
    push_str(&mut out, "\n\n");
    let ghost head = out@;
    assert(head =~= "# Auto-generated Caddy configuration for "@ + label@ + "\n# Domain: "@
        + p.domain + "\n\n"@);
    let ghost services = if serves_subdomains(p) {
        service_sites(p, p.services.len() as int)
    } else {
        Seq::empty()
    };
    if is_mode(project, "managed") && project.auto_subdomains {
        let mut i: usize = 0;
        assert(out@ =~= head + service_sites(p, 0));
        while i < project.services.len()
            invariant
                i <= project.services.len(),
                p == project@,
                domain@ == p.domain,
                cert@ == certificate_name(p.domain),
                out@ == head + service_sites(p, i as int),
            decreases project.services.len() - i,
        {
            let service = &project.services[i];
            assert(p.services[i as int] == (service.0@, service.1.enabled));
            if service.1.enabled && is_http_service(service.0.as_str()) {
                let name = make_subdomain(service.0.as_str(), domain);
                let mut target = chars_of(project.name.as_str());
                target.push('-');
                extend_chars(&mut target, &chars_of(service.0.as_str()));
                target.push(':');
                extend_chars(
                    &mut target,
                    &chars_of(get_service_port(service.0.as_str(), project.port_offset).as_str()),
                );
                assert(target@ =~= p.name + seq!['-'] + service.0@ + seq![':'] + decimal_text(
                    container_port_of(service.0@),
                ));
                push_site(&mut out, &chars_of(name.as_str()), cert.as_str(), &target);
                assert(out@ =~= head + service_sites(p, i + 1));
            }
            i += 1;
        }
    }
    assert(out@ =~= head + services);
    if is_mode(project, "proxy-only") || project.routes.len() > 0 {
        let mut i: usize = 0;
        assert(out@ =~= head + services + route_sites(p, 0));
        while i < project.routes.len()
            invariant
                i <= project.routes.len(),
                p == project@,
                domain@ == p.domain,
                cert@ == certificate_name(p.domain),
                out@ == head + services + route_sites(p, i as int),
            decreases project.routes.len() - i,
        {
            let route = &project.routes[i];
            assert(p.routes[i as int] == route@);
            let name: Option<Vec<char>> = match &route.subdomain {
                Some(sub) => Some(chars_of(make_subdomain(sub.as_str(), domain).as_str())),
                None => match &route.domain {
                    Some(d) => Some(chars_of(d.as_str())),
                    None => None,
                },
            };
            match name {
                Some(n) => {
                    push_site(&mut out, &n, cert.as_str(), &chars_of(route.target.as_str()));
                    assert(out@ =~= head + services + route_sites(p, i + 1));
                },
                None => {},
            }
            i += 1;
        }
    } else {
        assert(out@ =~= head + services + Seq::<char>::empty());
    }
    string_of(&out)
}

/// The host ports of the databases for a project with a port offset, as
/// settings for the templates.
pub open spec fn port_settings(offset: u16) -> Seq<(Seq<char>, Seq<char>)> {
    seq![
        ("POSTGRES_PORT"@, decimal_text((5432 + offset) as nat)),
        ("REDIS_PORT"@, decimal_text((6379 + offset) as nat)),
        ("MYSQL_PORT"@, decimal_text((3306 + offset) as nat)),
        ("MONGODB_PORT"@, decimal_text((27017 + offset) as nat)),
    ]
}

/// The database whose host port would lie above 65535 with this offset:
/// the first of PostgreSQL, Redis, MySQL and MongoDB.
pub open spec fn overflowing_database(offset: u16) -> Option<Seq<char>> {
    if 5432 + offset > 65535 {
        Some("PostgreSQL"@)
    } else if 6379 + offset > 65535 {
        Some("Redis"@)
    } else if 3306 + offset > 65535 {
        Some("MySQL"@)
    } else if 27017 + offset > 65535 {
        Some("MongoDB"@)
    } else {
        None
    }
}

fn setting(name: &str, port: u32) -> (s: (String, String))
    ensures
        s.0@ == name@,
        s.1@ == decimal_text(port as nat),
{
    (name.to_owned(), string_of(&decimal_chars(port as u64)))
}

/// The host ports of the databases for a project with a port offset. Fails
/// with the name of the database whose port would lie above 65535.
pub fn database_ports(offset: u16) -> (r: Result<Vec<(String, String)>, String>)
    ensures
        match r {
            Ok(settings) => overflowing_database(offset) is None && pair_texts(settings@)
                == port_settings(offset),
            Err(name) => overflowing_database(offset) == Some(name@),
        },
{
    let shift = offset as u32;
    if 5432 + shift > 65535 {
        return Err("PostgreSQL".to_owned());
    }
    if 6379 + shift > 65535 {
        return Err("Redis".to_owned());
    }
    if 3306 + shift > 65535 {
        return Err("MySQL".to_owned());
    }
    if 27017 + shift > 65535 {
        return Err("MongoDB".to_owned());
    }
    let mut settings: Vec<(String, String)> = Vec::new();
    settings.push(setting("POSTGRES_PORT", 5432 + shift));
    settings.push(setting("REDIS_PORT", 6379 + shift));
    settings.push(setting("MYSQL_PORT", 3306 + shift));
    settings.push(setting("MONGODB_PORT", 27017 + shift));
    assert(pair_texts(settings@) =~= port_settings(offset));
    Ok(settings)
}

/// The first `n` parts, each followed by `end`.
pub open spec fn parts_text(parts: Seq<Seq<char>>, end: Seq<char>, n: int) -> Seq<char>
    decreases n,
{
    if n <= 0 {
        Seq::empty()
    } else {
        parts_text(parts, end, n - 1) + parts[n - 1] + end
    }
}

/// The manifest of a managed project: the service parts of its templates,
/// the volume parts, and its two networks, both external.
pub open spec fn manifest_text(
    label: Seq<char>,
    stamp: Seq<char>,
    services: Seq<Seq<char>>,
    volumes: Seq<Seq<char>>,
    network: Seq<char>,
    proxy_network: Seq<char>,
) -> Seq<char> {
    "# Auto-generated docker-compose file for "@ + label + "\n# Generated at: "@ + stamp
        + "\n\nname: oh-my-dockers\n\n"@ + "services:\n"@ + parts_text(
        services,
        "\n"@,
        services.len() as int,
    ) + (if volumes.len() > 0 {
        "\nvolumes:\n"@ + parts_text(volumes, Seq::empty(), volumes.len() as int)
    } else {
        Seq::empty()
    }) + "\nnetworks:\n"@ + "  "@ + network + ":\n"@ + "    external: true\n"@ + "  "@
        + proxy_network + ":\n"@ + "    external: true\n"@
}

fn push_parts(out: &mut Vec<char>, parts: &Vec<String>, end: &str)
    ensures
        final(out)@ == old(out)@ + parts_text(texts(parts@), end@, parts@.len() as int),
{
    let mut i: usize = 0;
    assert(out@ =~= old(out)@ + parts_text(texts(parts@), end@, 0));
    while i < parts.len()
        invariant
            i <= parts.len(),
            out@ == old(out)@ + parts_text(texts(parts@), end@, i as int),
        decreases parts.len() - i,
    {
        assert(texts(parts@)[i as int] == parts@[i as int]@);
        push_str(out, parts[i].as_str());
        push_str(out, end);
        assert(out@ =~= old(out)@ + parts_text(texts(parts@), end@, i + 1));
        i += 1;
    }
}

/// The manifest of a managed project, made at `stamp`.
pub fn managed_compose(
    label: &str,
    stamp: &str,
    services: &Vec<String>,
    volumes: &Vec<String>,
    network: &str,
    proxy_network: &str,
) -> (text: String)
    ensures
        text@ == manifest_text(
            label@,
            stamp@,
            texts(services@),
            texts(volumes@),
            network@,
            proxy_network@,
        ),
{
    let mut out: Vec<char> = Vec::new();
    push_str(&mut out, "# Auto-generated docker-compose file for ");
    push_str(&mut out, label);
    push_str(&mut out, "\n# Generated at: ");
    push_str(&mut out, stamp);
    push_str(&mut out, "\n\nname: oh-my-dockers\n\n");
    push_str(&mut out, "services:\n");
    push_parts(&mut out, services, "\n");
    let ghost head = out@;
    assert(head =~= "# Auto-generated docker-compose file for "@ + label@ + "\n# Generated at: "@
        + stamp@ + "\n\nname: oh-my-dockers\n\n"@ + "services:\n"@ + parts_text(
        texts(services@),
        "\n"@,
        services@.len() as int,
    ));
    let ghost vol_part = if volumes@.len() > 0 {
        "\nvolumes:\n"@ + parts_text(texts(volumes@), Seq::empty(), volumes@.len() as int)
    } else {
        Seq::empty()
    };
    if volumes.len() > 0 {
        push_str(&mut out, "\nvolumes:\n");
        proof {
            reveal_strlit("");
            assert(""@ =~= Seq::<char>::empty());
        }
        push_parts(&mut out, volumes, "");
    }
    assert(out@ =~= head + vol_part);
    push_str(&mut out, "\nnetworks:\n");
    push_str(&mut out, "  ");
    push_str(&mut out, network);
    push_str(&mut out, ":\n");
    push_str(&mut out, "    external: true\n");
    push_str(&mut out, "  ");
    push_str(&mut out, proxy_network);
    push_str(&mut out, ":\n");
    push_str(&mut out, "    external: true\n");
    assert(out@ =~= head + vol_part + "\nnetworks:\n"@ + "  "@ + network@ + ":\n"@
        + "    external: true\n"@ + "  "@ + proxy_network@ + ":\n"@ + "    external: true\n"@);
    string_of(&out)
}

} // verus!

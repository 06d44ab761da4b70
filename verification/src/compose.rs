//! What a compose manifest says of ports, container names and networks.
//!
//! The manifest is read as a YAML document; this module takes the document
//! apart. A port declaration that fits none of the known forms is passed
//! over, since manifests may hold forms that do not matter here.
use crate::text::{
    chars_of, extend_chars, lemma_number_has_no, lemma_split_three, lemma_split_two, no_char,
    parse_port, port_value, same_text, split, split_fields, string_of, texts, unsigned_value,
};
use crate::yaml::{
    as_bool, as_list, as_table, as_text, as_unsigned, entry_models, find_entry, get, is_null,
    lemma_with_entry, models, parse_yaml, render_yaml, table_get, with_entry, yaml_parsed,
    yaml_written, Yaml, YamlError, YamlValue,
};
use vstd::prelude::*;

verus! {

/// What a manifest says of one service.
pub ghost struct Service {
    pub name: Seq<char>,
    pub container_name: Option<Seq<char>>,
    pub host_ports: Seq<u16>,
    pub container_ports: Seq<u16>,
    pub networks: Seq<Seq<char>>,
}

/// The host ports and container ports that port declarations contribute.
pub ghost struct PortFacts {
    pub host: Seq<u16>,
    pub container: Seq<u16>,
}

pub open spec fn no_ports() -> PortFacts {
    PortFacts { host: Seq::empty(), container: Seq::empty() }
}

pub open spec fn optional_port(p: Option<u16>) -> Seq<u16> {
    match p {
        Some(x) => seq![x],
        None => Seq::empty(),
    }
}

/// Every port from `a` to `b`, both included; nothing when `a` is above `b`.
pub open spec fn port_range(a: u16, b: u16) -> Seq<u16> {
    if a <= b {
        Seq::new((b - a + 1) as nat, |i: int| (a + i) as u16)
    } else {
        Seq::empty()
    }
}

/// A range holds each port from `a` to `b` once, in ascending order, and no
/// other port.
pub proof fn lemma_port_range(a: u16, b: u16)
    requires
        a <= b,
    ensures
        port_range(a, b).len() == b - a + 1,
        forall|i: int| 0 <= i <= b - a ==> #[trigger] port_range(a, b)[i] == a + i,
        forall|p: u16| port_range(a, b).contains(p) <==> a <= p <= b,
{
    let range = port_range(a, b);
    assert forall|p: u16| range.contains(p) <==> a <= p <= b by {
        if range.contains(p) {
            let i = choose|i: int| 0 <= i < range.len() && range[i] == p;
            assert(range[i] == a + i);
        }
        if a <= p <= b {
            assert(range[p - a] == p);
        }
    }
}

/// The host ports of a published field: one port, or every port of a range
/// `A-B`. A field that is neither contributes nothing.
pub open spec fn host_ports_of(field: Seq<char>) -> Seq<u16> {
    let parts = split(field, '-');
    if parts.len() == 1 {
        optional_port(port_value(parts[0]))
    } else if parts.len() == 2 {
        match (port_value(parts[0]), port_value(parts[1])) {
            (Some(a), Some(b)) => port_range(a, b),
            _ => Seq::empty(),
        }
    } else {
        Seq::empty()
    }
}

/// The container port of a target field: the number before a `/proto`
/// suffix, if it is one.
pub open spec fn target_port_of(field: Seq<char>) -> Seq<u16> {
    optional_port(port_value(split(field, '/')[0]))
}

/// What a port declaration in short form contributes: `target`,
/// `published:target` or `ip:published:target`.
pub open spec fn short_port_facts(text: Seq<char>) -> PortFacts {
    let fields = split(text, ':');
    if fields.len() == 1 {
        PortFacts { host: Seq::empty(), container: target_port_of(fields[0]) }
    } else if fields.len() == 2 {
        PortFacts { host: host_ports_of(fields[0]), container: target_port_of(fields[1]) }
    } else if fields.len() == 3 {
        PortFacts { host: host_ports_of(fields[1]), container: target_port_of(fields[2]) }
    } else {
        no_ports()
    }
}

/// A published range. In a declaration `A-B:T`, or `IP:A-B:T`, where `A`
/// and `B` are the ports `a <= b`, the published ports are each port from
/// `a` to `b` once, in ascending order, and no other.
pub proof fn law_range_is_expanded(
    ip: Seq<char>,
    from: Seq<char>,
    to: Seq<char>,
    target: Seq<char>,
    a: u16,
    b: u16,
)
    requires
        port_value(from) == Some(a),
        port_value(to) == Some(b),
        a <= b,
        no_char(ip, ':'),
        no_char(target, ':'),
    ensures
        short_port_facts(from + seq!['-'] + to + seq![':'] + target).host == port_range(a, b),
        short_port_facts(ip + seq![':'] + (from + seq!['-'] + to) + seq![':'] + target).host
            == port_range(a, b),
        forall|p: u16| port_range(a, b).contains(p) <==> a <= p <= b,
{
    let published = from + seq!['-'] + to;
    lemma_number_has_no(from, '-');
    lemma_number_has_no(to, '-');
    lemma_number_has_no(from, ':');
    lemma_number_has_no(to, ':');
    lemma_split_two(from, to, '-');
    assert(host_ports_of(published) == port_range(a, b));
    assert(no_char(published, ':')) by {
        assert forall|i: int| 0 <= i < published.len() implies #[trigger] published[i] != ':' by {
            if i < from.len() {
                assert(published[i] == from[i]);
            } else if i > from.len() {
                assert(published[i] == to[i - from.len() - 1]);
            }
        }
    }
    lemma_split_two(published, target, ':');
    lemma_split_three(ip, published, target, ':');
    lemma_port_range(a, b);
}

/// The port under a key of the long form: a native integer or a numeric
/// string. A number above 65535 is no port and contributes nothing.
pub open spec fn long_port_of(value: Option<Yaml>) -> Seq<u16> {
    match value {
        Some(v) => match as_unsigned(v) {
            Some(n) => if n <= u16::MAX {
                seq![n as u16]
            } else {
                Seq::empty()
            },
            None => match as_text(v) {
                Some(t) => optional_port(port_value(t)),
                None => Seq::empty(),
            },
        },
        None => Seq::empty(),
    }
}

/// What a port declaration in long form contributes.
pub open spec fn long_port_facts(entries: Seq<(Yaml, Yaml)>) -> PortFacts {
    PortFacts {
        host: long_port_of(table_get(entries, "published"@)),
        container: long_port_of(table_get(entries, "target"@)),
    }
}

/// The value is the port `p`: as an integer, or as a number in a string.
pub open spec fn denotes_port(value: Yaml, p: u16) -> bool {
    match value {
        Yaml::Number(n) => unsigned_value(n) == Some(p as nat),
        Yaml::Text(s) => port_value(s) == Some(p),
        _ => false,
    }
}

/// The long form. A declaration that gives `published` and `target`, each
/// as a port, publishes the one and targets the other.
pub proof fn law_long_form_ports(
    entries: Seq<(Yaml, Yaml)>,
    published: Yaml,
    target: Yaml,
    p: u16,
    t: u16,
)
    requires
        table_get(entries, "published"@) == Some(published),
        table_get(entries, "target"@) == Some(target),
        denotes_port(published, p),
        denotes_port(target, t),
    ensures
        port_facts(Yaml::Table(entries)) == (PortFacts { host: seq![p], container: seq![t] }),
{
    assert(long_port_of(Some(published)) == seq![p]);
    assert(long_port_of(Some(target)) == seq![t]);
}

/// What one port declaration contributes.
pub open spec fn port_facts(entry: Yaml) -> PortFacts {
    match as_text(entry) {
        Some(text) => short_port_facts(text),
        None => match as_table(entry) {
            Some(entries) => long_port_facts(entries),
            None => no_ports(),
        },
    }
}

/// What the first `n` port declarations contribute, in order.
pub open spec fn ports_in(entries: Seq<Yaml>, n: int) -> PortFacts
    decreases n,
{
    if n <= 0 {
        no_ports()
    } else {
        let before = ports_in(entries, n - 1);
        let here = port_facts(entries[n - 1]);
        PortFacts { host: before.host + here.host, container: before.container + here.container }
    }
}

/// The ports of a service: those of its `ports` list, none without one.
pub open spec fn service_ports(config: Yaml) -> PortFacts {
    match get(config, "ports"@) {
        Some(ports) => match as_list(ports) {
            Some(entries) => ports_in(entries, entries.len() as int),
            None => no_ports(),
        },
        None => no_ports(),
    }
}

/// The strings among the first `n` items.
pub open spec fn texts_in(items: Seq<Yaml>, n: int) -> Seq<Seq<char>>
    decreases n,
{
    if n <= 0 {
        Seq::empty()
    } else {
        match as_text(items[n - 1]) {
            Some(t) => texts_in(items, n - 1).push(t),
            None => texts_in(items, n - 1),
        }
    }
}

/// The strings among the first `n` keys.
pub open spec fn key_texts(entries: Seq<(Yaml, Yaml)>, n: int) -> Seq<Seq<char>>
    decreases n,
{
    if n <= 0 {
        Seq::empty()
    } else {
        match as_text(entries[n - 1].0) {
            Some(t) => key_texts(entries, n - 1).push(t),
            None => key_texts(entries, n - 1),
        }
    }
}

/// The networks of a service: the names in its `networks` list, or the keys
/// of its `networks` mapping.
pub open spec fn service_networks(config: Yaml) -> Seq<Seq<char>> {
    match get(config, "networks"@) {
        Some(nets) => match as_list(nets) {
            Some(items) => texts_in(items, items.len() as int),
            None => match as_table(nets) {
                Some(entries) => key_texts(entries, entries.len() as int),
                None => Seq::empty(),
            },
        },
        None => Seq::empty(),
    }
}

/// What the manifest says of the service `name` with configuration
/// `config`.
pub open spec fn service_of(name: Seq<char>, config: Yaml) -> Service {
    Service {
        name,
        container_name: match get(config, "container_name"@) {
            Some(v) => as_text(v),
            None => None,
        },
        host_ports: service_ports(config).host,
        container_ports: service_ports(config).container,
        networks: service_networks(config),
    }
}

/// Index of the first service at or after `from` called `name`, or
/// `services.len()`.
pub open spec fn index_of_service(services: Seq<Service>, name: Seq<char>, from: int) -> int
    decreases services.len() - from,
{
    if 0 <= from < services.len() && services[from].name != name {
        index_of_service(services, name, from + 1)
    } else {
        from
    }
}

/// The service called `name`.
pub open spec fn service_named(services: Seq<Service>, name: Seq<char>) -> Option<Service> {
    let i = index_of_service(services, name, 0);
    if i < services.len() {
        Some(services[i])
    } else {
        None
    }
}

/// The services with `service` in the place of the one of the same name, or
/// at the end.
pub open spec fn put_service(services: Seq<Service>, service: Service) -> Seq<Service> {
    let i = index_of_service(services, service.name, 0);
    if i < services.len() {
        services.update(i, service)
    } else {
        services.push(service)
    }
}

/// The services of the first `n` entries of the `services` mapping; `None`
/// when one of the keys is no string.
pub open spec fn services_in(entries: Seq<(Yaml, Yaml)>, n: int) -> Option<Seq<Service>>
    decreases n,
{
    if n <= 0 {
        Some(Seq::empty())
    } else {
        match services_in(entries, n - 1) {
            Some(before) => match as_text(entries[n - 1].0) {
                Some(name) => Some(put_service(before, service_of(name, entries[n - 1].1))),
                None => None,
            },
            None => None,
        }
    }
}

/// The services of a manifest; none when it has no `services` mapping,
/// `None` when a service name is no string.
pub open spec fn compose_of(doc: Yaml) -> Option<Seq<Service>> {
    match get(doc, "services"@) {
        Some(services) => match as_table(services) {
            Some(entries) => services_in(entries, entries.len() as int),
            None => Some(Seq::empty()),
        },
        None => Some(Seq::empty()),
    }
}

/// Some service publishes host port `p`.
pub open spec fn publishes(services: Seq<Service>, p: u16) -> bool {
    exists|i: int| 0 <= i < services.len() && (#[trigger] services[i]).host_ports.contains(p)
}

pub open spec fn strictly_ascending(s: Seq<u16>) -> bool {
    forall|i: int, j: int| 0 <= i < j < s.len() ==> s[i] < s[j]
}

/// The name of a service's container: the explicit one, or the one that the
/// orchestrator gives by default.
pub open spec fn container_name_of(service: Service, project: Seq<char>) -> Seq<char> {
    match service.container_name {
        Some(c) => c,
        None => project + seq!['-'] + service.name + seq!['-', '1'],
    }
}

pub open spec fn container_names(services: Seq<Service>, project: Seq<char>) -> Seq<Seq<char>> {
    Seq::new(services.len(), |i: int| container_name_of(services[i], project))
}

/// Those of the first `n` services that are on the network `network`.
pub open spec fn on_network(services: Seq<Service>, network: Seq<char>, n: int) -> Seq<Service>
    decreases n,
{
    if n <= 0 {
        Seq::empty()
    } else if services[n - 1].networks.contains(network) {
        on_network(services, network, n - 1).push(services[n - 1])
    } else {
        on_network(services, network, n - 1)
    }
}

/// Whether a network declaration is marked external.
pub open spec fn is_external(config: Yaml) -> bool {
    match get(config, "external"@) {
        Some(v) => as_bool(v) == Some(true),
        None => false,
    }
}

/// The network declaration marked external, where there is something to
/// do: an empty declaration becomes a mapping with the flag, a mapping gets
/// the flag. `None` for a declaration that is external already, and for one
/// that is neither empty nor a mapping.
pub open spec fn made_external(config: Yaml) -> Option<Yaml> {
    if is_external(config) {
        None
    } else if is_null(config) {
        Some(Yaml::Table(seq![(Yaml::Text("external"@), Yaml::Bool(true))]))
    } else if as_table(config) is Some {
        Some(with_entry(config, "external"@, Yaml::Bool(true)))
    } else {
        None
    }
}

/// The manifest with the top-level network `network` marked external;
/// `None` when the manifest does not declare the network or nothing is to
/// be done.
pub open spec fn marked_external(doc: Yaml, network: Seq<char>) -> Option<Yaml> {
    match get(doc, "networks"@) {
        Some(nets) => match get(nets, network) {
            Some(config) => match made_external(config) {
                Some(marked) => Some(
                    with_entry(doc, "networks"@, with_entry(nets, network, marked)),
                ),
                None => None,
            },
            None => None,
        },
        None => None,
    }
}

/// Marking a network external puts no empty tag into a manifest.
pub proof fn lemma_marked_external_well_tagged(doc: Yaml, network: Seq<char>)
    requires
        crate::yaml::well_tagged(doc),
    ensures
        marked_external(doc, network) matches Some(marked) ==> crate::yaml::well_tagged(marked),
{
    if let Some(nets) = get(doc, "networks"@) {
        crate::yaml::lemma_get_well_tagged(doc, "networks"@);
        if let Some(config) = get(nets, network) {
            crate::yaml::lemma_get_well_tagged(nets, network);
            if let Some(flagged) = made_external(config) {
                if is_null(config) {
                    let entries = seq![(Yaml::Text("external"@), Yaml::Bool(true))];
                    crate::yaml::lemma_well_tagged_table(entries);
                } else {
                    crate::yaml::lemma_with_entry_well_tagged(config, "external"@, Yaml::Bool(true));
                }
                crate::yaml::lemma_with_entry_well_tagged(nets, network, flagged);
                crate::yaml::lemma_with_entry_well_tagged(
                    doc,
                    "networks"@,
                    with_entry(nets, network, flagged),
                );
            }
        }
    }
}

/// Network idempotence. Once a network was marked external, nothing is
/// left to do: marking it again changes nothing.
pub proof fn law_marked_external_once(doc: Yaml, network: Seq<char>)
    ensures
        marked_external(doc, network) matches Some(marked) ==> marked_external(marked, network)
            is None,
{
    if let Some(nets) = get(doc, "networks"@) {
        if let Some(config) = get(nets, network) {
            if let Some(flagged) = made_external(config) {
                let nets1 = with_entry(nets, network, flagged);
                let doc1 = with_entry(doc, "networks"@, nets1);
                lemma_with_entry(doc, "networks"@, nets1, "networks"@);
                lemma_with_entry(nets, network, flagged, network);
                assert(get(doc1, "networks"@) == Some(nets1));
                assert(get(nets1, network) == Some(flagged));
                if is_null(config) {
                    let entries = seq![(Yaml::Text("external"@), Yaml::Bool(true))];
                    assert(entries[0].0 == Yaml::Text("external"@));
                    assert(table_get(entries, "external"@) == Some(Yaml::Bool(true)));
                } else {
                    lemma_with_entry(config, "external"@, Yaml::Bool(true), "external"@);
                }
                assert(is_external(flagged));
            }
        }
    }
}

// ---------------------------------------------------------------------------
// Executable types
// ---------------------------------------------------------------------------

/// What a manifest says of one service.
#[derive(Debug, Clone)]
pub struct ServiceInfo {
    /// Service name
    pub name: String,
    /// Container name, if the manifest gives one
    pub container_name: Option<String>,
    /// Host ports that the service publishes
    pub host_ports: Vec<u16>,
    /// Container ports that the service exposes
    pub container_ports: Vec<u16>,
    /// Networks that the service is connected to
    pub networks: Vec<String>,
}

impl View for ServiceInfo {
    type V = Service;

    open spec fn view(&self) -> Service {
        Service {
            name: self.name@,
            container_name: match self.container_name {
                Some(c) => Some(c@),
                None => None,
            },
            host_ports: self.host_ports@,
            container_ports: self.container_ports@,
            networks: texts(self.networks@),
        }
    }
}

/// What a manifest says of its services, in the order of the manifest.
#[derive(Debug, Clone)]
pub struct ComposeInfo {
    pub services: Vec<ServiceInfo>,
}

impl View for ComposeInfo {
    type V = Seq<Service>;

    open spec fn view(&self) -> Seq<Service> {
        self.services@.map_values(|s: ServiceInfo| s@)
    }
}

/// The views of a list of services.
pub open spec fn service_views(v: Seq<&ServiceInfo>) -> Seq<Service> {
    v.map_values(|s: &ServiceInfo| s@)
}

/// Why a manifest could not be read or written.
#[derive(Debug)]
pub enum ComposeError {
    /// The manifest is no YAML document, or could not be written as one.
    Yaml(YamlError),
    /// A key of the `services` mapping is no string.
    ServiceName,
}

impl ComposeError {
    /// The error in words.
    pub fn message(&self) -> (text: String)
        ensures
            text@ == match self {
                ComposeError::Yaml(YamlError::Syntax(m)) => m@,
                ComposeError::Yaml(YamlError::EmptyTag) => "empty YAML tag is not allowed"@,
                ComposeError::Yaml(YamlError::Unwritable(m)) => m@,
                ComposeError::ServiceName => "Service name is not a string"@,
            },
    {
        match self {
            ComposeError::Yaml(e) => e.message(),
            ComposeError::ServiceName => "Service name is not a string".to_owned(),
        }
    }
}

/// Appends to `ports` every port from `a` to `b`.
fn push_port_range(ports: &mut Vec<u16>, a: u16, b: u16)
    ensures
        final(ports)@ == old(ports)@ + port_range(a, b),
{
    if a > b {
        assert(ports@ + port_range(a, b) =~= ports@);
        return ;
    }
    let count: u32 = (b - a) as u32 + 1;
    let mut i: u32 = 0;
    while i < count
        invariant
            a <= b,
            count == b - a + 1,
            i <= count,
            ports@ == old(ports)@ + port_range(a, b).subrange(0, i as int),
        decreases count - i,
    {
        let port: u16 = (a as u32 + i) as u16;
        proof {
            assert(port_range(a, b)[i as int] == port);
            assert(port_range(a, b).subrange(0, i + 1) =~= port_range(a, b).subrange(0, i as int).push(
                port,
            ));
        }
        ports.push(port);
        assert(ports@ =~= old(ports)@ + port_range(a, b).subrange(0, i + 1));
        i += 1;
    }
    assert(port_range(a, b).subrange(0, count as int) =~= port_range(a, b));
}

/// Appends a port, if there is one.
fn push_optional_port(ports: &mut Vec<u16>, p: Option<u16>)
    ensures
        final(ports)@ == old(ports)@ + optional_port(p),
{
    match p {
        Some(x) => {
            ports.push(x);
            assert(ports@ =~= old(ports)@ + optional_port(p));
        },
        None => {
            assert(ports@ =~= old(ports)@ + optional_port(p));
        },
    }
}

/// Appends the host ports of a published field.
fn push_host_ports(ports: &mut Vec<u16>, field: &Vec<char>)
    ensures
        final(ports)@ == old(ports)@ + host_ports_of(field@),
{
    let parts = split_fields(field, '-');
    assert(crate::text::rows(parts@)[0] == parts@[0]@);
    if parts.len() == 1 {
        push_optional_port(ports, parse_port(&parts[0]));
    } else if parts.len() == 2 {
        assert(crate::text::rows(parts@)[1] == parts@[1]@);
        match (parse_port(&parts[0]), parse_port(&parts[1])) {
            (Some(a), Some(b)) => {
                push_port_range(ports, a, b);
            },
            _ => {
                assert(ports@ + host_ports_of(field@) =~= ports@);
            },
        }
    } else {
        assert(ports@ + host_ports_of(field@) =~= ports@);
    }
}

/// Appends the container port of a target field.
fn push_target_port(ports: &mut Vec<u16>, field: &Vec<char>)
    ensures
        final(ports)@ == old(ports)@ + target_port_of(field@),
{
    let parts = split_fields(field, '/');
    assert(crate::text::rows(parts@)[0] == parts@[0]@);
    push_optional_port(ports, parse_port(&parts[0]));
}

/// Appends what a port declaration in short form contributes.
fn push_short_ports(host: &mut Vec<u16>, container: &mut Vec<u16>, text: &str)
    ensures
        final(host)@ == old(host)@ + short_port_facts(text@).host,
        final(container)@ == old(container)@ + short_port_facts(text@).container,
{
    let fields = split_fields(&chars_of(text), ':');
    let ghost f = crate::text::rows(fields@);
    assert(f[0] == fields@[0]@);
    if fields.len() == 1 {
        push_target_port(container, &fields[0]);
        assert(host@ + Seq::<u16>::empty() =~= host@);
    } else if fields.len() == 2 {
        assert(f[1] == fields@[1]@);
        push_host_ports(host, &fields[0]);
        push_target_port(container, &fields[1]);
    } else if fields.len() == 3 {
        assert(f[1] == fields@[1]@);
        assert(f[2] == fields@[2]@);
        push_host_ports(host, &fields[1]);
        push_target_port(container, &fields[2]);
    } else {
        assert(host@ + Seq::<u16>::empty() =~= host@);
        assert(container@ + Seq::<u16>::empty() =~= container@);
    }
}

/// Appends the port under a key of the long form.
fn push_long_port(ports: &mut Vec<u16>, value: Option<&YamlValue>)
    ensures
        final(ports)@ == old(ports)@ + long_port_of(
            match value {
                Some(v) => Some(v@),
                None => None,
            },
        ),
{
    match value {
        Some(v) => {
            match v.as_u64() {
                Some(n) => {
                    if n <= 65535 {
                        let port: u16 = n as u16;
                        ports.push(port);
                        assert(ports@ =~= old(ports)@ + seq![port]);
                    } else {
                        assert(ports@ + Seq::<u16>::empty() =~= ports@);
                    }
                },
                None => {
                    match v.as_str() {
                        Some(t) => {
                            push_optional_port(ports, parse_port(&chars_of(t.as_str())));
                        },
                        None => {
                            assert(ports@ + Seq::<u16>::empty() =~= ports@);
                        },
                    }
                },
            }
        },
        None => {
            assert(ports@ + Seq::<u16>::empty() =~= ports@);
        },
    }
}

/// The value that a mapping holds under `key`.
fn entry_value<'a>(entries: &'a Vec<(YamlValue, YamlValue)>, key: &str) -> (r: Option<&'a YamlValue>)
    ensures
        match r {
            Some(v) => table_get(entry_models(entries@), key@) == Some(v@),
            None => table_get(entry_models(entries@), key@) is None,
        },
{
    let i = find_entry(entries, key);
    if i < entries.len() {
        Some(&entries[i].1)
    } else {
        None
    }
}

/// Appends what one port declaration contributes.
fn push_port_entry(host: &mut Vec<u16>, container: &mut Vec<u16>, entry: &YamlValue)
    ensures
        final(host)@ == old(host)@ + port_facts(entry@).host,
        final(container)@ == old(container)@ + port_facts(entry@).container,
{
    match entry.as_str() {
        Some(text) => {
            push_short_ports(host, container, text.as_str());
        },
        None => {
            match entry.as_mapping() {
                Some(entries) => {
                    push_long_port(host, entry_value(entries, "published"));
                    push_long_port(container, entry_value(entries, "target"));
                },
                None => {
                    assert(host@ + Seq::<u16>::empty() =~= host@);
                    assert(container@ + Seq::<u16>::empty() =~= container@);
                },
            }
        },
    }
}

/// The host ports and the container ports of a service.
pub fn parse_ports(config: &YamlValue) -> (r: (Vec<u16>, Vec<u16>))
    ensures
        r.0@ == service_ports(config@).host,
        r.1@ == service_ports(config@).container,
{
    let mut host: Vec<u16> = Vec::new();
    let mut container: Vec<u16> = Vec::new();
    match config.get("ports") {
        Some(ports) => {
            match ports.as_sequence() {
                Some(entries) => {
                    let ghost list = models(entries@);
                    let mut i: usize = 0;
                    while i < entries.len()
                        invariant
                            i <= entries.len(),
                            list == models(entries@),
                            host@ == ports_in(list, i as int).host,
                            container@ == ports_in(list, i as int).container,
                        decreases entries.len() - i,
                    {
                        assert(list[i as int] == entries@[i as int]@);
                        push_port_entry(&mut host, &mut container, &entries[i]);
                        i += 1;
                    }
                },
                None => {},
            }
        },
        None => {},
    }
    (host, container)
}

/// The networks of a service.
pub fn parse_networks(config: &YamlValue) -> (networks: Vec<String>)
    ensures
        texts(networks@) == service_networks(config@),
{
    let mut networks: Vec<String> = Vec::new();
    assert(texts(networks@) =~= Seq::<Seq<char>>::empty());
    match config.get("networks") {
        Some(nets) => {
            match nets.as_sequence() {
                Some(items) => {
                    let ghost list = models(items@);
                    let mut i: usize = 0;
                    while i < items.len()
                        invariant
                            i <= items.len(),
                            list == models(items@),
                            texts(networks@) == texts_in(list, i as int),
                        decreases items.len() - i,
                    {
                        assert(list[i as int] == items@[i as int]@);
                        match items[i].as_str() {
                            Some(t) => {
                                let name = t.clone();
                                assert(texts(networks@.push(name)) =~= texts(networks@).push(name@));
                                networks.push(name);
                            },
                            None => {},
                        }
                        i += 1;
                    }
                },
                None => {
                    match nets.as_mapping() {
                        Some(entries) => {
                            let ghost table = entry_models(entries@);
                            let mut i: usize = 0;
                            while i < entries.len()
                                invariant
                                    i <= entries.len(),
                                    table == entry_models(entries@),
                                    texts(networks@) == key_texts(table, i as int),
                                decreases entries.len() - i,
                            {
                                assert(table[i as int].0 == entries@[i as int].0@);
                                match entries[i].0.as_str() {
                                    Some(t) => {
                                        let name = t.clone();
                                        assert(texts(networks@.push(name)) =~= texts(
                                            networks@,
                                        ).push(name@));
                                        networks.push(name);
                                    },
                                    None => {},
                                }
                                i += 1;
                            }
                        },
                        None => {},
                    }
                },
            }
        },
        None => {},
    }
    networks
}

/// What the manifest says of the service `name` with configuration
/// `config`.
pub fn parse_service(name: &String, config: &YamlValue) -> (service: ServiceInfo)
    ensures
        service@ == service_of(name@, config@),
{
    let container_name = match config.get("container_name") {
        Some(v) => match v.as_str() {
            Some(t) => Some(t.clone()),
            None => None,
        },
        None => None,
    };
    let (host_ports, container_ports) = parse_ports(config);
    let networks = parse_networks(config);
    ServiceInfo { name: name.clone(), container_name, host_ports, container_ports, networks }
}

/// Puts `port` into an ascending list of distinct ports.
fn insert_port(ports: &mut Vec<u16>, port: u16)
    requires
        strictly_ascending(old(ports)@),
    ensures
        strictly_ascending(final(ports)@),
        forall|p: u16|
            #![trigger final(ports)@.contains(p)]
            final(ports)@.contains(p) <==> old(ports)@.contains(p) || p == port,
{
    let mut pos: usize = 0;
    while pos < ports.len() && ports[pos] < port
        invariant
            pos <= ports.len(),
            ports@ == old(ports)@,
            forall|k: int| 0 <= k < pos ==> ports@[k] < port,
        decreases ports.len() - pos,
    {
        pos += 1;
    }
    let ghost before = ports@;
    if pos < ports.len() && ports[pos] == port {
        assert forall|p: u16| before.contains(p) <==> before.contains(p) || p == port by {
            assert(before[pos as int] == port);
        }
    } else {
        ports.insert(pos, port);
        let ghost after = ports@;
        assert forall|i: int, j: int| 0 <= i < j < after.len() implies after[i] < after[j] by {
            let i0 = if i < pos {
                i
            } else {
                i - 1
            };
            let j0 = if j < pos {
                j
            } else {
                j - 1
            };
            if i == pos {
                assert(after[j] == before[j0]);
                if j0 > pos {
                    assert(before[pos as int] < before[j0]);
                }
            } else if j == pos {
                assert(after[i] == before[i0]);
            } else {
                assert(after[i] == before[i0] && after[j] == before[j0]);
            }
        }
        assert forall|p: u16| after.contains(p) <==> before.contains(p) || p == port by {
            if after.contains(p) {
                let k = choose|k: int| 0 <= k < after.len() && after[k] == p;
                if k < pos {
                    assert(before[k] == p);
                } else if k > pos {
                    assert(before[k - 1] == p);
                }
            }
            if before.contains(p) {
                let k = choose|k: int| 0 <= k < before.len() && before[k] == p;
                if k < pos {
                    assert(after[k] == p);
                } else {
                    assert(after[k + 1] == p);
                }
            }
            assert(after[pos as int] == port);
        }
    }
}

impl ComposeInfo {
    /// Position of the service called `name`, or `services.len()`.
    fn position(&self, name: &Vec<char>) -> (i: usize)
        ensures
            i == index_of_service(self@, name@, 0),
            i <= self@.len(),
    {
        let mut i: usize = 0;
        while i < self.services.len()
            invariant
                i <= self.services.len(),
                index_of_service(self@, name@, i as int) == index_of_service(self@, name@, 0),
            decreases self.services.len() - i,
        {
            let entry_name = chars_of(self.services[i].name.as_str());
            assert(self@[i as int].name == entry_name@);
            if same_text(&entry_name, name) {
                return i;
            }
            i += 1;
        }
        i
    }

    /// The service called `name`.
    pub fn get_service(&self, name: &str) -> (r: Option<&ServiceInfo>)
        ensures
            match r {
                Some(s) => service_named(self@, name@) == Some(s@),
                None => service_named(self@, name@) is None,
            },
    {
        let i = self.position(&chars_of(name));
        if i < self.services.len() {
            Some(&self.services[i])
        } else {
            None
        }
    }

    /// Takes a manifest apart, service by service. A service whose name
    /// occurs again replaces the earlier one.
    pub fn from_document(doc: &YamlValue) -> (r: Result<ComposeInfo, ComposeError>)
        ensures
            match r {
                Ok(info) => compose_of(doc@) == Some(info@),
                Err(e) => compose_of(doc@) is None && e is ServiceName,
            },
    {
        let mut info = ComposeInfo { services: Vec::new() };
        assert(info@ =~= Seq::<Service>::empty());
        match doc.get("services") {
            Some(services) => {
                match services.as_mapping() {
                    Some(entries) => {
                        let ghost table = entry_models(entries@);
                        let mut i: usize = 0;
                        while i < entries.len()
                            invariant
                                i <= entries.len(),
                                table == entry_models(entries@),
                                compose_of(doc@) == services_in(table, entries@.len() as int),
                                services_in(table, i as int) == Some(info@),
                            decreases entries.len() - i,
                        {
                            assert(table[i as int] == (entries@[i as int].0@, entries@[i as int].1@));
                            match entries[i].0.as_str() {
                                Some(name) => {
                                    let service = parse_service(name, &entries[i].1);
                                    let at = info.position(&chars_of(name.as_str()));
                                    let ghost before = info@;
                                    if at < info.services.len() {
                                        info.services.set(at, service);
                                    } else {
                                        info.services.push(service);
                                    }
                                    assert(info@ =~= put_service(before, service@));
                                },
                                None => {
                                    proof {
                                        lemma_services_in_fails(table, i + 1, entries@.len() as int);
                                    }
                                    return Err(ComposeError::ServiceName);
                                },
                            }
                            i += 1;
                        }
                    },
                    None => {},
                }
            },
            None => {},
        }
        Ok(info)
    }

    /// Reads a manifest from its text.
    pub fn parse(content: &str) -> (r: Result<ComposeInfo, ComposeError>)
        ensures
            match yaml_parsed(content@) {
                Some(doc) => match compose_of(doc) {
                    Some(services) => r matches Ok(info) && info@ == services,
                    None => r matches Err(ComposeError::ServiceName),
                },
                None => r matches Err(ComposeError::Yaml(YamlError::Syntax(_))),
            },
    {
        match parse_yaml(content) {
            Ok(doc) => ComposeInfo::from_document(&doc),
            Err(e) => Err(ComposeError::Yaml(e)),
        }
    }

    /// Every host port that some service publishes, each once, in ascending
    /// order.
    pub fn get_all_host_ports(&self) -> (ports: Vec<u16>)
        ensures
            strictly_ascending(ports@),
            forall|p: u16| ports@.contains(p) <==> publishes(self@, p),
    {
        let mut ports: Vec<u16> = Vec::new();
        let mut i: usize = 0;
        while i < self.services.len()
            invariant
                i <= self.services.len(),
                strictly_ascending(ports@),
                forall|p: u16|
                    #![trigger ports@.contains(p)]
                    ports@.contains(p) <==> exists|k: int|
                        0 <= k < i && (#[trigger] self@[k]).host_ports.contains(p),
            decreases self.services.len() - i,
        {
            let service = &self.services[i];
            assert(self@[i as int].host_ports == service.host_ports@);
            let ghost before = ports@;
            let mut j: usize = 0;
            while j < service.host_ports.len()
                invariant
                    j <= service.host_ports.len(),
                    strictly_ascending(ports@),
                    forall|p: u16|
                        #![trigger ports@.contains(p)]
                        ports@.contains(p) <==> before.contains(p) || service.host_ports@.subrange(
                            0,
                            j as int,
                        ).contains(p),
                decreases service.host_ports.len() - j,
            {
                let ghost seen = service.host_ports@.subrange(0, j as int);
                let ghost next = service.host_ports@.subrange(0, j + 1);
                let port = service.host_ports[j];
                let ghost mid = ports@;
                insert_port(&mut ports, port);
                proof {
                    assert(next =~= seen.push(port));
                    assert forall|p: u16|
                        ports@.contains(p) <==> before.contains(p) || next.contains(p) by {
                        assert(ports@.contains(p) <==> mid.contains(p) || p == port);
                        assert(mid.contains(p) <==> before.contains(p) || seen.contains(p));
                        if next.contains(p) {
                            let k = choose|k: int| 0 <= k < next.len() && next[k] == p;
                            if k < j {
                                assert(seen[k] == p);
                            }
                        }
                        if seen.contains(p) {
                            let k = choose|k: int| 0 <= k < seen.len() && seen[k] == p;
                            assert(next[k] == p);
                        }
                        assert(next[j as int] == port);
                    }
                }
                j += 1;
            }
            proof {
                let all = service.host_ports@;
                assert(all.subrange(0, all.len() as int) =~= all);
                assert forall|p: u16|
                    ports@.contains(p) <==> exists|k: int|
                        0 <= k < i + 1 && (#[trigger] self@[k]).host_ports.contains(p) by {
                    if before.contains(p) {
                        let k = choose|k: int|
                            0 <= k < i && (#[trigger] self@[k]).host_ports.contains(p);
                        assert(0 <= k < i + 1 && self@[k].host_ports.contains(p));
                    }
                    if all.contains(p) {
                        assert(self@[i as int].host_ports.contains(p));
                    }
                    if exists|k: int|
                        0 <= k < i + 1 && (#[trigger] self@[k]).host_ports.contains(p) {
                        let k = choose|k: int|
                            0 <= k < i + 1 && (#[trigger] self@[k]).host_ports.contains(p);
                        if k < i {
                            assert(before.contains(p));
                        }
                    }
                }
            }
            i += 1;
        }
        ports
    }

    /// The container name of every service, in the order of the services.
    pub fn get_all_container_names(&self, project_name: &str) -> (names: Vec<String>)
        ensures
            texts(names@) == container_names(self@, project_name@),
    {
        let project = chars_of(project_name);
        let mut names: Vec<String> = Vec::new();
        let mut i: usize = 0;
        while i < self.services.len()
            invariant
                i <= self.services.len(),
                project@ == project_name@,
                texts(names@) == container_names(self@, project_name@).subrange(0, i as int),
            decreases self.services.len() - i,
        {
            let service = &self.services[i];
            let name = match &service.container_name {
                Some(c) => c.clone(),
                None => {
                    let mut chars = slice_copy(&project);
                    chars.push('-');
                    extend_chars(&mut chars, &chars_of(service.name.as_str()));
                    chars.push('-');
                    chars.push('1');
                    assert(chars@ =~= project@ + seq!['-'] + service.name@ + seq!['-', '1']);
                    string_of(&chars)
                },
            };
            proof {
                let all = container_names(self@, project_name@);
                assert(self@[i as int] == service@);
                assert(all[i as int] == name@);
                assert(texts(names@.push(name)) =~= texts(names@).push(name@));
                assert(all.subrange(0, i + 1) =~= all.subrange(0, i as int).push(name@));
            }
            names.push(name);
            i += 1;
        }
        proof {
            let all = container_names(self@, project_name@);
            assert(all.subrange(0, all.len() as int) =~= all);
        }
        names
    }

    /// The services that are on the network `network_name`.
    pub fn get_services_on_network(&self, network_name: &str) -> (found: Vec<&ServiceInfo>)
        ensures
            service_views(found@) == on_network(self@, network_name@, self@.len() as int),
    {
        let network = chars_of(network_name);
        let mut found: Vec<&ServiceInfo> = Vec::new();
        let mut i: usize = 0;
        assert(service_views(found@) =~= Seq::<Service>::empty());
        while i < self.services.len()
            invariant
                i <= self.services.len(),
                network@ == network_name@,
                service_views(found@) == on_network(self@, network_name@, i as int),
            decreases self.services.len() - i,
        {
            let service = &self.services[i];
            assert(self@[i as int] == service@);
            if crate::reconcile::contains_text(&service.networks, &network) {
                assert(service_views(found@.push(service)) =~= service_views(found@).push(service@));
                found.push(service);
            }
            i += 1;
        }
        found
    }
}

/// A copy of the characters.
fn slice_copy(chars: &Vec<char>) -> (copy: Vec<char>)
    ensures
        copy@ == chars@,
{
    let mut copy: Vec<char> = Vec::new();
    extend_chars(&mut copy, chars);
    assert(copy@ =~= chars@);
    copy
}

/// Once a service name is no string, the rest of the mapping does not
/// matter.
proof fn lemma_services_in_fails(entries: Seq<(Yaml, Yaml)>, n: int, m: int)
    requires
        0 <= n <= m,
        services_in(entries, n) is None,
    ensures
        services_in(entries, m) is None,
    decreases m - n,
{
    if n < m {
        lemma_services_in_fails(entries, n, m - 1);
    }
}

/// The tree with `value` under `key` in a mapping, under whatever tags the
/// mapping has. Anything but a mapping is copied as it is.
pub fn set_entry(y: &YamlValue, key: &str, value: YamlValue) -> (r: YamlValue)
    ensures
        r@ == with_entry(y@, key@, value@),
    decreases y,
{
    match y {
        YamlValue::Tagged(tag, inner) => YamlValue::Tagged(
            tag.clone(),
            Box::new(set_entry(inner, key, value)),
        ),
        YamlValue::Mapping(entries) => {
            let at = find_entry(entries, key);
            let ghost table = entry_models(entries@);
            let ghost target = crate::yaml::table_put(table, key@, value@);
            let mut copies: Vec<(YamlValue, YamlValue)> = Vec::new();
            let mut moved: Option<YamlValue> = Some(value);
            let mut i: usize = 0;
            while i < entries.len()
                invariant
                    i <= entries.len(),
                    at <= entries.len(),
                    at == crate::yaml::entry_index(table, key@, 0),
                    table == entry_models(entries@),
                    target == crate::yaml::table_put(table, key@, value@),
                    copies@.len() == i,
                    moved is Some <==> i <= at,
                    moved is Some ==> moved->0@ == value@,
                    forall|k: int|
                        0 <= k < i ==> ((#[trigger] copies@[k]).0@, copies@[k].1@) == target[k],
                decreases entries.len() - i,
            {
                let k = entries[i].0.duplicate();
                if i == at {
                    let v = moved.take().unwrap();
                    copies.push((k, v));
                } else {
                    copies.push((k, entries[i].1.duplicate()));
                }
                i += 1;
            }
            match moved {
                Some(v) => {
                    copies.push((YamlValue::String(key.to_owned()), v));
                },
                None => {},
            }
            proof {
                crate::yaml::lemma_mapping_model(*entries);
                crate::yaml::lemma_mapping_model(copies);
                assert(entry_models(copies@) =~= target);
            }
            YamlValue::Mapping(copies)
        },
        _ => y.duplicate(),
    }
}

/// Marks the top-level network `network_name` of a manifest external.
/// Returns the new manifest, or `None` when the manifest does not declare
/// the network, when the network is external already, or when its
/// declaration is neither empty nor a mapping.
pub fn mark_network_external(doc: &YamlValue, network_name: &str) -> (r: Option<YamlValue>)
    ensures
        match r {
            Some(marked) => marked_external(doc@, network_name@) == Some(marked@),
            None => marked_external(doc@, network_name@) is None,
        },
{
    let nets = match doc.get("networks") {
        Some(nets) => nets,
        None => {
            return None;
        },
    };
    let config = match nets.get(network_name) {
        Some(config) => config,
        None => {
            return None;
        },
    };
    let external = match config.get("external") {
        Some(v) => match v.as_bool() {
            Some(b) => b,
            None => false,
        },
        None => false,
    };
    if external {
        return None;
    }
    let flagged = if config.is_null() {
        let mut entries: Vec<(YamlValue, YamlValue)> = Vec::new();
        entries.push((YamlValue::String("external".to_owned()), YamlValue::Bool(true)));
        proof {
            crate::yaml::lemma_mapping_model(entries);
            assert(entry_models(entries@) =~= seq![(Yaml::Text("external"@), Yaml::Bool(true))]);
        }
        YamlValue::Mapping(entries)
    } else {
        match config.as_mapping() {
            Some(_) => set_entry(config, "external", YamlValue::Bool(true)),
            None => {
                return None;
            },
        }
    };
    Some(set_entry(doc, "networks", set_entry(nets, network_name, flagged)))
}

/// Makes sure that the top-level network `network_name` of a manifest is
/// marked external. Given the text of the manifest, returns the new text
/// when the flag had to be set and `None` when there is nothing to write.
pub fn ensure_network_external(content: &str, network_name: &str) -> (r: Result<
    Option<String>,
    ComposeError,
>)
    ensures
        match yaml_parsed(content@) {
            Some(doc) => match marked_external(doc, network_name@) {
                Some(marked) => match r {
                    Ok(Some(text)) => yaml_written(marked) == Some(text@),
                    Ok(None) => false,
                    Err(e) => yaml_written(marked) is None && e matches ComposeError::Yaml(
                        YamlError::Unwritable(_),
                    ),
                },
                None => r matches Ok(None),
            },
            None => r matches Err(ComposeError::Yaml(YamlError::Syntax(_))),
        },
{
    let doc = match parse_yaml(content) {
        Ok(doc) => doc,
        Err(e) => {
            return Err(ComposeError::Yaml(e));
        },
    };
    proof {
        lemma_marked_external_well_tagged(doc@, network_name@);
    }
    match mark_network_external(&doc, network_name) {
        Some(marked) => match render_yaml(&marked) {
            Ok(text) => Ok(Some(text)),
            Err(e) => Err(ComposeError::Yaml(e)),
        },
        None => Ok(None),
    }
}

} // verus!

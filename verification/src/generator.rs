//! Writing a compose manifest from service templates, with host ports that
//! no registered project holds.
use crate::registry::{holds_port, PortRegistry};
use crate::text::{chars_of, decimal_chars, decimal_text, extend_chars, pair_texts, push_str, split, split_fields, string_of};
use vstd::prelude::*;

verus! {

/// A service that a manifest can be made of.
pub ghost struct Template {
    pub name: Seq<char>,
    pub display_name: Seq<char>,
    pub image: Seq<char>,
    pub default_port: u16,
    pub container_port: u16,
    pub environment: Seq<(Seq<char>, Seq<char>)>,
    pub volumes: Seq<Seq<char>>,
}

/// A template with the host port chosen for it.
pub ghost struct Selected {
    pub template: Template,
    pub host_port: u16,
}

/// Service template definition
#[derive(Debug, Clone)]
pub struct ServiceTemplate {
    pub name: String,
    pub display_name: String,
    pub image: String,
    pub default_port: u16,
    pub container_port: u16,
    pub environment: Vec<(String, String)>,
    pub volumes: Vec<String>,
}

impl View for ServiceTemplate {
    type V = Template;

    open spec fn view(&self) -> Template {
        Template {
            name: self.name@,
            display_name: self.display_name@,
            image: self.image@,
            default_port: self.default_port,
            container_port: self.container_port,
            environment: pair_texts(self.environment@),
            volumes: crate::text::texts(self.volumes@),
        }
    }
}

/// Selected service with resolved port
#[derive(Debug, Clone)]
pub struct SelectedService {
    pub template: ServiceTemplate,
    pub host_port: u16,
}

impl View for SelectedService {
    type V = Selected;

    open spec fn view(&self) -> Selected {
        Selected { template: self.template@, host_port: self.host_port }
    }
}

pub open spec fn selections(v: Seq<SelectedService>) -> Seq<Selected> {
    v.map_values(|s: SelectedService| s@)
}

/// The smallest port from `desired` up that `used` does not hold, if there
/// is one.
pub open spec fn first_free(desired: u16, used: Seq<u16>) -> Option<u16> {
    if exists|p: u16| desired <= p && !used.contains(p) {
        Some(
            choose|p: u16|
                desired <= p && !used.contains(p) && forall|q: u16|
                    desired <= q < p ==> #[trigger] used.contains(q),
        )
    } else {
        None
    }
}

/// `p` is the smallest port from `desired` up that `used` does not hold.
pub open spec fn is_first_free(desired: u16, used: Seq<u16>, p: u16) -> bool {
    &&& desired <= p
    &&& !used.contains(p)
    &&& forall|q: u16| desired <= q < p ==> #[trigger] used.contains(q)
}

/// The smallest free port is one, and there is no other.
pub proof fn lemma_first_free(desired: u16, used: Seq<u16>, p: u16)
    requires
        is_first_free(desired, used, p),
    ensures
        first_free(desired, used) == Some(p),
{
    let found = choose|x: u16|
        desired <= x && !used.contains(x) && forall|q: u16|
            desired <= q < x ==> #[trigger] used.contains(q);
    assert(is_first_free(desired, used, found));
    if found < p {
        assert(used.contains(found));
    } else if p < found {
        assert(used.contains(p));
    }
}

/// The smallest port from `desired` up that is not in use; `None` when
/// every port from `desired` to 65535 is in use.
pub fn try_find_available_port(desired: u16, used_ports: &Vec<u16>) -> (r: Option<u16>)
    ensures
        r == first_free(desired, used_ports@),
        r matches Some(p) ==> is_first_free(desired, used_ports@, p),
{
    let mut port: u16 = desired;
    loop
        invariant
            desired <= port,
            forall|q: u16| desired <= q < port ==> #[trigger] used_ports@.contains(q),
        decreases u16::MAX - port,
    {
        if !holds_port(used_ports, port) {
            proof {
                lemma_first_free(desired, used_ports@, port);
            }
            return Some(port);
        }
        if port == u16::MAX {
            proof {
                assert forall|p: u16| desired <= p implies used_ports@.contains(p) by {
                    if p < port {
                        assert(used_ports@.contains(p));
                    }
                }
            }
            return None;
        }
        port += 1;
    }
}

/// Find an available port that doesn't conflict with existing ports: the
/// smallest port from `desired` up that is not in use.
pub fn find_available_port(desired: u16, used_ports: &Vec<u16>) -> (port: u16)
    requires
        exists|p: u16| desired <= p && !used_ports@.contains(p),
    ensures
        is_first_free(desired, used_ports@, port),
{
    match try_find_available_port(desired, used_ports) {
        Some(port) => port,
        None => {
            proof {
                assert(false);
            }
            desired
        },
    }
}

/// The templates chosen by their positions, each with the smallest host port
/// from its default port up that neither `used` nor an earlier choice
/// holds. `None` when a position is out of range or no port is left.
pub open spec fn resolved(templates: Seq<Template>, chosen: Seq<usize>, used: Seq<u16>, n: int) -> Option<
    (Seq<Selected>, Seq<u16>),
>
    decreases n,
{
    if n <= 0 {
        Some((Seq::empty(), used))
    } else {
        match resolved(templates, chosen, used, n - 1) {
            Some((before, taken)) => if chosen[n - 1] < templates.len() {
                let template = templates[chosen[n - 1] as int];
                match first_free(template.default_port, taken) {
                    Some(port) => Some(
                        (before.push(Selected { template, host_port: port }), taken.push(port)),
                    ),
                    None => None,
                }
            } else {
                None
            },
            None => None,
        }
    }
}

proof fn lemma_resolved_fails(
    templates: Seq<Template>,
    chosen: Seq<usize>,
    used: Seq<u16>,
    n: int,
    m: int,
)
    requires
        0 <= n <= m,
        resolved(templates, chosen, used, n) is None,
    ensures
        resolved(templates, chosen, used, m) is None,
    decreases m - n,
{
    if n < m {
        lemma_resolved_fails(templates, chosen, used, n, m - 1);
    }
}

pub open spec fn templates_of(v: Seq<ServiceTemplate>) -> Seq<Template> {
    v.map_values(|t: ServiceTemplate| t@)
}

fn literal(text: &str) -> (s: String)
    ensures
        s@ == text@,
{
    text.to_owned()
}

/// The service templates on offer: PostgreSQL, Redis, and Kafka in KRaft
/// mode, which needs no Zookeeper.
pub open spec fn offered_templates() -> Seq<Template> {
    seq![
        Template {
            name: "postgres"@,
            display_name: "PostgreSQL"@,
            image: "postgres:latest"@,
            default_port: 5432,
            container_port: 5432,
            environment: seq![
                ("POSTGRES_USER"@, "postgres"@),
                ("POSTGRES_PASSWORD"@, "postgres"@),
                ("POSTGRES_DB"@, "app"@),
            ],
            volumes: seq!["postgres_data:/var/lib/postgresql"@],
        },
        Template {
            name: "redis"@,
            display_name: "Redis"@,
            image: "redis:latest"@,
            default_port: 6379,
            container_port: 6379,
            environment: Seq::empty(),
            volumes: seq!["redis_data:/data"@],
        },
        Template {
            name: "kafka"@,
            display_name: "Kafka (KRaft)"@,
            image: "apache/kafka:latest"@,
            default_port: 9092,
            container_port: 9092,
            environment: seq![
                ("KAFKA_NODE_ID"@, "1"@),
                ("KAFKA_PROCESS_ROLES"@, "broker,controller"@),
                ("KAFKA_LISTENERS"@, "PLAINTEXT://:9092,CONTROLLER://:9093"@),
                ("KAFKA_ADVERTISED_LISTENERS"@, "PLAINTEXT://localhost:9092"@),
                ("KAFKA_CONTROLLER_LISTENER_NAMES"@, "CONTROLLER"@),
                ("KAFKA_CONTROLLER_QUORUM_VOTERS"@, "1@kafka:9093"@),
                ("KAFKA_OFFSETS_TOPIC_REPLICATION_FACTOR"@, "1"@),
                ("CLUSTER_ID"@, "omd-kafka-cluster-id-001"@),
            ],
            volumes: seq!["kafka_data:/var/lib/kafka/data"@],
        },
    ]
}

/// The service templates on offer.
pub fn available_services() -> (all: Vec<ServiceTemplate>)
    ensures
        templates_of(all@) == offered_templates(),
{
    let mut all: Vec<ServiceTemplate> = Vec::new();
    let mut environment: Vec<(String, String)> = Vec::new();
    environment.push((literal("POSTGRES_USER"), literal("postgres")));
    environment.push((literal("POSTGRES_PASSWORD"), literal("postgres")));
    environment.push((literal("POSTGRES_DB"), literal("app")));
    let mut volumes: Vec<String> = Vec::new();
    volumes.push(literal("postgres_data:/var/lib/postgresql"));
    all.push(
        ServiceTemplate {
            name: literal("postgres"),
            display_name: literal("PostgreSQL"),
            image: literal("postgres:latest"),
            default_port: 5432,
            container_port: 5432,
            environment,
            volumes,
        },
    );
    let mut volumes: Vec<String> = Vec::new();
    volumes.push(literal("redis_data:/data"));
    all.push(
        ServiceTemplate {
            name: literal("redis"),
            display_name: literal("Redis"),
            image: literal("redis:latest"),
            default_port: 6379,
            container_port: 6379,
            environment: Vec::new(),
            volumes,
        },
    );
    let mut environment: Vec<(String, String)> = Vec::new();
    environment.push((literal("KAFKA_NODE_ID"), literal("1")));
    environment.push((literal("KAFKA_PROCESS_ROLES"), literal("broker,controller")));
    environment.push((literal("KAFKA_LISTENERS"), literal("PLAINTEXT://:9092,CONTROLLER://:9093")));
    environment.push((literal("KAFKA_ADVERTISED_LISTENERS"), literal("PLAINTEXT://localhost:9092")));
    environment.push((literal("KAFKA_CONTROLLER_LISTENER_NAMES"), literal("CONTROLLER")));
    environment.push((literal("KAFKA_CONTROLLER_QUORUM_VOTERS"), literal("1@kafka:9093")));
    environment.push((literal("KAFKA_OFFSETS_TOPIC_REPLICATION_FACTOR"), literal("1")));
    environment.push((literal("CLUSTER_ID"), literal("omd-kafka-cluster-id-001")));
    let mut volumes: Vec<String> = Vec::new();
    volumes.push(literal("kafka_data:/var/lib/kafka/data"));
    all.push(
        ServiceTemplate {
            name: literal("kafka"),
            display_name: literal("Kafka (KRaft)"),
            image: literal("apache/kafka:latest"),
            default_port: 9092,
            container_port: 9092,
            environment,
            volumes,
        },
    );
    proof {
        let offer = offered_templates();
        assert(pair_texts(all@[0].environment@) =~= offer[0].environment);
        assert(pair_texts(all@[1].environment@) =~= offer[1].environment);
        assert(pair_texts(all@[2].environment@) =~= offer[2].environment);
        assert(crate::text::texts(all@[0].volumes@) =~= offer[0].volumes);
        assert(crate::text::texts(all@[1].volumes@) =~= offer[1].volumes);
        assert(crate::text::texts(all@[2].volumes@) =~= offer[2].volumes);
        assert(all@[0]@ == offer[0]);
        assert(all@[1]@ == offer[1]);
        assert(all@[2]@ == offer[2]);
        assert(templates_of(all@) =~= offer);
    }
    all
}

/// A copy of a list of pairs of strings.
fn copy_pairs(list: &Vec<(String, String)>) -> (copy: Vec<(String, String)>)
    ensures
        pair_texts(copy@) == pair_texts(list@),
{
    let mut copy: Vec<(String, String)> = Vec::new();
    let mut i: usize = 0;
    while i < list.len()
        invariant
            i <= list.len(),
            copy@.len() == i,
            forall|k: int| 0 <= k < i ==> pair_texts(copy@)[k] == pair_texts(list@)[k],
        decreases list.len() - i,
    {
        let pair = (list[i].0.clone(), list[i].1.clone());
        copy.push(pair);
        i += 1;
    }
    assert(pair_texts(copy@) =~= pair_texts(list@));
    copy
}

impl ServiceTemplate {
    /// A copy of the template.
    pub fn duplicate(&self) -> (copy: ServiceTemplate)
        ensures
            copy@ == self@,
    {
        ServiceTemplate {
            name: self.name.clone(),
            display_name: self.display_name.clone(),
            image: self.image.clone(),
            default_port: self.default_port,
            container_port: self.container_port,
            environment: copy_pairs(&self.environment),
            volumes: crate::plan::copy_texts(&self.volumes),
        }
    }
}

/// Resolve ports for selected services, avoiding conflicts with the ports
/// of registered projects and among the selected services themselves.
///
/// `selected` holds positions in `templates`. Each selected service gets
/// the smallest host port from its default port up that no registered
/// project and no earlier selection holds.
pub fn resolve_service_ports(
    templates: &Vec<ServiceTemplate>,
    selected: &Vec<usize>,
    registry: &PortRegistry,
) -> (r: Option<Vec<SelectedService>>)
    ensures
        match r {
            Some(services) => resolved(
                templates_of(templates@),
                selected@,
                crate::registry::used_ports(registry@, registry@.len() as int),
                selected@.len() as int,
            ) matches Some(found) && found.0 == selections(services@),
            None => resolved(
                templates_of(templates@),
                selected@,
                crate::registry::used_ports(registry@, registry@.len() as int),
                selected@.len() as int,
            ) is None,
        },
{
    let mut used = registry.get_all_used_ports();
    let ghost start = used@;
    let ghost offer = templates_of(templates@);
    let mut services: Vec<SelectedService> = Vec::new();
    let mut k: usize = 0;
    assert(selections(services@) =~= Seq::<Selected>::empty());
    while k < selected.len()
        invariant
            k <= selected.len(),
            offer == templates_of(templates@),
            start == crate::registry::used_ports(registry@, registry@.len() as int),
            resolved(offer, selected@, start, k as int) == Some((selections(services@), used@)),
        decreases selected.len() - k,
    {
        let at = selected[k];
        if at >= templates.len() {
            proof {
                lemma_resolved_fails(offer, selected@, start, k + 1, selected@.len() as int);
            }
            return None;
        }
        let template = templates[at].duplicate();
        assert(offer[at as int] == template@);
        match try_find_available_port(template.default_port, &used) {
            Some(port) => {
                let service = SelectedService { template, host_port: port };
                assert(selections(services@.push(service)) =~= selections(services@).push(service@));
                services.push(service);
                used.push(port);
            },
            None => {
                proof {
                    lemma_resolved_fails(offer, selected@, start, k + 1, selected@.len() as int);
                }
                return None;
            },
        }
        k += 1;
    }
    Some(services)
}

// ---------------------------------------------------------------------------
// The text of a manifest
// ---------------------------------------------------------------------------

/// The lines of the first `n` environment variables of a service block.
pub open spec fn environment_text(vars: Seq<(Seq<char>, Seq<char>)>, n: int) -> Seq<char>
    decreases n,
{
    if n <= 0 {
        Seq::empty()
    } else {
        environment_text(vars, n - 1) + "      "@ + vars[n - 1].0 + ": "@ + vars[n - 1].1 + "\n"@
    }
}

/// The lines of the first `n` volume mounts of a service block.
pub open spec fn mounts_text(volumes: Seq<Seq<char>>, n: int) -> Seq<char>
    decreases n,
{
    if n <= 0 {
        Seq::empty()
    } else {
        mounts_text(volumes, n - 1) + "      - "@ + volumes[n - 1] + "\n"@
    }
}

/// The block of one service in a manifest.
pub open spec fn service_block(project: Seq<char>, network: Seq<char>, service: Selected) -> Seq<
    char,
> {
    let t = service.template;
    "  "@ + t.name + ":\n"@ + "    image: "@ + t.image + "\n"@ + "    container_name: "@ + project
        + "-"@ + t.name + "\n"@ + "    restart: unless-stopped\n"@ + "    ports:\n"@
        + "      - \""@ + decimal_text(service.host_port as nat) + ":"@ + decimal_text(
        t.container_port as nat,
    ) + "\"\n"@ + (if t.environment.len() > 0 {
        "    environment:\n"@ + environment_text(t.environment, t.environment.len() as int)
    } else {
        Seq::empty()
    }) + (if t.volumes.len() > 0 {
        "    volumes:\n"@ + mounts_text(t.volumes, t.volumes.len() as int)
    } else {
        Seq::empty()
    }) + "    networks:\n"@ + "      - "@ + network + "\n"@ + "\n"@
}

/// The blocks of the first `n` services.
pub open spec fn blocks_text(
    project: Seq<char>,
    network: Seq<char>,
    services: Seq<Selected>,
    n: int,
) -> Seq<char>
    decreases n,
{
    if n <= 0 {
        Seq::empty()
    } else {
        blocks_text(project, network, services, n - 1) + service_block(
            project,
            network,
            services[n - 1],
        )
    }
}

/// The declarations of the first `n` volumes of a service: the name before
/// the first `:` of each mount.
pub open spec fn volume_names_text(volumes: Seq<Seq<char>>, n: int) -> Seq<char>
    decreases n,
{
    if n <= 0 {
        Seq::empty()
    } else {
        volume_names_text(volumes, n - 1) + "  "@ + split(volumes[n - 1], ':')[0] + ":\n"@
    }
}

/// The volume declarations of the first `n` services.
pub open spec fn volumes_text(services: Seq<Selected>, n: int) -> Seq<char>
    decreases n,
{
    if n <= 0 {
        Seq::empty()
    } else {
        volumes_text(services, n - 1) + volume_names_text(
            services[n - 1].template.volumes,
            services[n - 1].template.volumes.len() as int,
        )
    }
}

/// The text of a manifest with these services on the network `network`.
pub open spec fn compose_text(project: Seq<char>, network: Seq<char>, services: Seq<Selected>) -> Seq<
    char,
> {
    "# Generated by oh-my-dockers\n"@ + "services:\n"@ + blocks_text(
        project,
        network,
        services,
        services.len() as int,
    ) + (if services.len() > 0 {
        "\nvolumes:\n"@ + volumes_text(services, services.len() as int)
    } else {
        Seq::empty()
    }) + "\nnetworks:\n  "@ + network + ":\n"@
}

/// Generate a single service block
pub fn generate_service_block(project_name: &str, network_name: &str, service: &SelectedService) -> (block:
    String)
    ensures
        block@ == service_block(project_name@, network_name@, service@),
{
    let template = &service.template;
    let mut out: Vec<char> = Vec::new();
    push_str(&mut out, "  ");
    push_str(&mut out, template.name.as_str());
    push_str(&mut out, ":\n");
    push_str(&mut out, "    image: ");
    push_str(&mut out, template.image.as_str());
    push_str(&mut out, "\n");
    push_str(&mut out, "    container_name: ");
    push_str(&mut out, project_name);
    push_str(&mut out, "-");
    push_str(&mut out, template.name.as_str());
    push_str(&mut out, "\n");
    push_str(&mut out, "    restart: unless-stopped\n");
    push_str(&mut out, "    ports:\n");
    push_str(&mut out, "      - \"");
    extend_chars(&mut out, &decimal_chars(service.host_port as u64));
    push_str(&mut out, ":");
    extend_chars(&mut out, &decimal_chars(template.container_port as u64));
    push_str(&mut out, "\"\n");
    let ghost head = out@;
    let ghost t = service@.template;
    assert(head =~= "  "@ + t.name + ":\n"@ + "    image: "@ + t.image + "\n"@
        + "    container_name: "@ + project_name@ + "-"@ + t.name + "\n"@
        + "    restart: unless-stopped\n"@ + "    ports:\n"@ + "      - \""@ + decimal_text(
        service.host_port as nat,
    ) + ":"@ + decimal_text(t.container_port as nat) + "\"\n"@);
    let ghost env_part = if t.environment.len() > 0 {
        "    environment:\n"@ + environment_text(t.environment, t.environment.len() as int)
    } else {
        Seq::empty()
    };
    if template.environment.len() > 0 {
        push_str(&mut out, "    environment:\n");
        let mut i: usize = 0;
        while i < template.environment.len()
            invariant
                i <= template.environment.len(),
                t.environment == pair_texts(template.environment@),
                out@ == head + "    environment:\n"@ + environment_text(t.environment, i as int),
            decreases template.environment.len() - i,
        {
            let ghost before = out@;
            assert(t.environment[i as int] == (
                template.environment@[i as int].0@,
                template.environment@[i as int].1@,
            ));
            push_str(&mut out, "      ");
            push_str(&mut out, template.environment[i].0.as_str());
            push_str(&mut out, ": ");
            push_str(&mut out, template.environment[i].1.as_str());
            push_str(&mut out, "\n");
            assert(out@ =~= head + "    environment:\n"@ + environment_text(t.environment, i + 1));
            i += 1;
        }
    }
    assert(out@ =~= head + env_part);
    let ghost vol_part = if t.volumes.len() > 0 {
        "    volumes:\n"@ + mounts_text(t.volumes, t.volumes.len() as int)
    } else {
        Seq::empty()
    };
    if template.volumes.len() > 0 {
        push_str(&mut out, "    volumes:\n");
        let mut i: usize = 0;
        while i < template.volumes.len()
            invariant
                i <= template.volumes.len(),
                t.volumes == crate::text::texts(template.volumes@),
                out@ == head + env_part + "    volumes:\n"@ + mounts_text(t.volumes, i as int),
            decreases template.volumes.len() - i,
        {
            assert(t.volumes[i as int] == template.volumes@[i as int]@);
            push_str(&mut out, "      - ");
            push_str(&mut out, template.volumes[i].as_str());
            push_str(&mut out, "\n");
            assert(out@ =~= head + env_part + "    volumes:\n"@ + mounts_text(t.volumes, i + 1));
            i += 1;
        }
    }
    assert(out@ =~= head + env_part + vol_part);
    push_str(&mut out, "    networks:\n");
    push_str(&mut out, "      - ");
    push_str(&mut out, network_name);
    push_str(&mut out, "\n");
    push_str(&mut out, "\n");
    assert(out@ =~= head + env_part + vol_part + "    networks:\n"@ + "      - "@ + network_name@
        + "\n"@ + "\n"@);
    string_of(&out)
}

/// Generate docker-compose.yml content
pub fn generate_compose_content(
    project_name: &str,
    network_name: &str,
    services: &Vec<SelectedService>,
) -> (content: String)
    ensures
        content@ == compose_text(project_name@, network_name@, selections(services@)),
{
    let ghost all = selections(services@);
    let mut out: Vec<char> = Vec::new();
    push_str(&mut out, "# Generated by oh-my-dockers\n");
    push_str(&mut out, "services:\n");
    let ghost head = out@;
    let mut i: usize = 0;
    assert(out@ =~= head + blocks_text(project_name@, network_name@, all, 0));
    while i < services.len()
        invariant
            i <= services.len(),
            all == selections(services@),
            out@ == head + blocks_text(project_name@, network_name@, all, i as int),
        decreases services.len() - i,
    {
        assert(all[i as int] == services@[i as int]@);
        let block = generate_service_block(project_name, network_name, &services[i]);
        push_str(&mut out, block.as_str());
        assert(out@ =~= head + blocks_text(project_name@, network_name@, all, i + 1));
        i += 1;
    }
    let ghost body = out@;
    let ghost vol_part = if all.len() > 0 {
        "\nvolumes:\n"@ + volumes_text(all, all.len() as int)
    } else {
        Seq::empty()
    };
    if services.len() > 0 {
        push_str(&mut out, "\nvolumes:\n");
        let mut i: usize = 0;
        assert(out@ =~= body + "\nvolumes:\n"@ + volumes_text(all, 0));
        while i < services.len()
            invariant
                i <= services.len(),
                all == selections(services@),
                out@ == body + "\nvolumes:\n"@ + volumes_text(all, i as int),
            decreases services.len() - i,
        {
            let volumes = &services[i].template.volumes;
            let ghost names = all[i as int].template.volumes;
            assert(names == crate::text::texts(volumes@));
            let ghost before = out@;
            let mut j: usize = 0;
            assert(out@ =~= before + volume_names_text(names, 0));
            while j < volumes.len()
                invariant
                    j <= volumes.len(),
                    names == crate::text::texts(volumes@),
                    out@ == before + volume_names_text(names, j as int),
                decreases volumes.len() - j,
            {
                let fields = split_fields(&chars_of(volumes[j].as_str()), ':');
                assert(names[j as int] == volumes@[j as int]@);
                assert(crate::text::rows(fields@)[0] == fields@[0]@);
                push_str(&mut out, "  ");
                extend_chars(&mut out, &fields[0]);
                push_str(&mut out, ":\n");
                assert(out@ =~= before + volume_names_text(names, j + 1));
                j += 1;
            }
            assert(out@ =~= body + "\nvolumes:\n"@ + volumes_text(all, i + 1));
            i += 1;
        }
    }
    assert(out@ =~= body + vol_part);
    push_str(&mut out, "\nnetworks:\n  ");
    push_str(&mut out, network_name);
    push_str(&mut out, ":\n");
    assert(out@ =~= body + vol_part + "\nnetworks:\n  "@ + network_name@ + ":\n"@);
    string_of(&out)
}

} // verus!

//! Reading the configuration of a project and the global settings out of
//! their TOML text.
use crate::project::{
    default_compose_file, CaddyConfig, DefaultSettings, GlobalConfig, GlobalSettings,
    NetworkConfig, NetworkDefinition, ProjectConfig, ProjectInfo,
};
use crate::settings::{
    field, field_models, find_field, lemma_table_model, parse_toml, toml_parsed, SettingsError,
    Toml, TomlValue,
};
use crate::text::{chars_of, extend_chars, pair_texts, string_of};
use vstd::prelude::*;

verus! {

/// What is wrong with a configuration.
pub ghost enum Fault {
    /// A setting that must be there is missing.
    Missing(Seq<char>),
    /// A setting is of the wrong type.
    WrongType(Seq<char>),
    /// A section holds a setting that it does not know.
    Unknown(Seq<char>),
}

/// Why a configuration could not be read.
#[derive(Debug)]
pub enum ConfigError {
    /// The text is no TOML document. The message says where it went wrong.
    Syntax(String),
    /// A setting that must be there is missing. Holds its name.
    MissingField(String),
    /// A setting is of the wrong type. Holds its name.
    InvalidType(String),
    /// A section holds a setting that it does not know. Holds its name.
    UnknownField(String),
}

/// The fault that an error stands for; a text that is no TOML document
/// stands for none.
pub open spec fn fault_of(e: ConfigError) -> Option<Fault> {
    match e {
        ConfigError::Syntax(_) => None,
        ConfigError::MissingField(n) => Some(Fault::Missing(n@)),
        ConfigError::InvalidType(n) => Some(Fault::WrongType(n@)),
        ConfigError::UnknownField(n) => Some(Fault::Unknown(n@)),
    }
}

impl ConfigError {
    /// The error in words.
    pub fn message(&self) -> (text: String)
        ensures
            text@ == match self {
                ConfigError::Syntax(m) => m@,
                ConfigError::MissingField(n) => "missing field `"@ + n@ + "`"@,
                ConfigError::InvalidType(n) => "invalid type for `"@ + n@ + "`"@,
                ConfigError::UnknownField(n) => "unknown field `"@ + n@ + "`"@,
            },
    {
        match self {
            ConfigError::Syntax(m) => m.clone(),
            ConfigError::MissingField(n) => quoted("missing field `", n.as_str()),
            ConfigError::InvalidType(n) => quoted("invalid type for `", n.as_str()),
            ConfigError::UnknownField(n) => quoted("unknown field `", n.as_str()),
        }
    }
}

fn quoted(head: &str, name: &str) -> (text: String)
    ensures
        text@ == head@ + name@ + "`"@,
{
    let mut out = chars_of(head);
    extend_chars(&mut out, &chars_of(name));
    extend_chars(&mut out, &chars_of("`"));
    string_of(&out)
}

/// The string under `key`, if the key is there: anything else under it is
/// of the wrong type.
pub open spec fn text_under(entries: Seq<(Seq<char>, Toml)>, key: Seq<char>) -> Result<
    Option<Seq<char>>,
    Fault,
> {
    match field(entries, key) {
        Some(Toml::Text(t)) => Ok(Some(t)),
        Some(_) => Err(Fault::WrongType(key)),
        None => Ok(None),
    }
}

/// The truth value under `key`, if the key is there.
pub open spec fn flag_under(entries: Seq<(Seq<char>, Toml)>, key: Seq<char>) -> Result<
    Option<bool>,
    Fault,
> {
    match field(entries, key) {
        Some(Toml::Boolean(b)) => Ok(Some(b)),
        Some(_) => Err(Fault::WrongType(key)),
        None => Ok(None),
    }
}

/// The table under `key`, if the key is there.
pub open spec fn table_under(entries: Seq<(Seq<char>, Toml)>, key: Seq<char>) -> Result<
    Option<Seq<(Seq<char>, Toml)>>,
    Fault,
> {
    match field(entries, key) {
        Some(Toml::Table(t)) => Ok(Some(t)),
        Some(_) => Err(Fault::WrongType(key)),
        None => Ok(None),
    }
}

/// What a setting that must be there comes to.
pub open spec fn required<A>(found: Result<Option<A>, Fault>, key: Seq<char>) -> Result<A, Fault> {
    match found {
        Ok(Some(a)) => Ok(a),
        Ok(None) => Err(Fault::Missing(key)),
        Err(f) => Err(f),
    }
}

/// The first `n` routes of a `routes` table: each must be a string.
pub open spec fn routes_of(entries: Seq<(Seq<char>, Toml)>, n: int) -> Result<
    Seq<(Seq<char>, Seq<char>)>,
    Fault,
>
    decreases n,
{
    if n <= 0 {
        Ok(Seq::empty())
    } else {
        match routes_of(entries, n - 1) {
            Ok(before) => match entries[n - 1].1 {
                Toml::Text(target) => Ok(before.push((entries[n - 1].0, target))),
                _ => Err(Fault::WrongType(entries[n - 1].0)),
            },
            Err(f) => Err(f),
        }
    }
}

/// The first key at or after `from` that is not `routes`.
pub open spec fn unknown_key(entries: Seq<(Seq<char>, Toml)>, from: int) -> Option<Seq<char>>
    decreases entries.len() - from,
{
    if 0 <= from < entries.len() {
        if entries[from].0 != "routes"@ {
            Some(entries[from].0)
        } else {
            unknown_key(entries, from + 1)
        }
    } else {
        None
    }
}

/// The routes of a `[caddy]` section, which knows no setting but `routes`.
/// Without the section there are no routes.
pub open spec fn caddy_routes(caddy: Option<Seq<(Seq<char>, Toml)>>) -> Result<
    Seq<(Seq<char>, Seq<char>)>,
    Fault,
> {
    match caddy {
        Some(entries) => match unknown_key(entries, 0) {
            Some(key) => Err(Fault::Unknown(key)),
            None => match table_under(entries, "routes"@) {
                Ok(Some(routes)) => routes_of(routes, routes.len() as int),
                Ok(None) => Ok(Seq::empty()),
                Err(f) => Err(f),
            },
        },
        None => Ok(Seq::empty()),
    }
}

/// The configuration of a project.
pub ghost struct ProjectModel {
    pub name: Seq<char>,
    pub path: Option<Seq<char>>,
    pub domain: Seq<char>,
    pub compose_file: Seq<char>,
    pub network: Seq<char>,
    pub routes: Seq<(Seq<char>, Seq<char>)>,
}

/// The model of a project's configuration.
pub open spec fn project_model(c: ProjectConfig) -> ProjectModel {
    ProjectModel {
        name: c.project.name@,
        path: match c.project.path {
            Some(p) => Some(p@),
            None => None,
        },
        domain: c.project.domain@,
        compose_file: c.project.compose_file@,
        network: c.network.name@,
        routes: pair_texts(c.caddy.routes@),
    }
}

/// The configuration that a document holds.
///
/// `[project]` must be there with `name` and `domain`; `path` may be
/// there; `compose_file` is `docker-compose.yml` unless set. `[network]`
/// must be there with `name`. `[caddy]` may be there; it knows `routes`
/// only. The first fault in this order counts.
pub open spec fn project_config_of(doc: Toml) -> Result<ProjectModel, Fault> {
    match doc {
        Toml::Table(top) => match required(table_under(top, "project"@), "project"@) {
            Err(f) => Err(f),
            Ok(project) => match required(text_under(project, "name"@), "name"@) {
                Err(f) => Err(f),
                Ok(name) => match text_under(project, "path"@) {
                    Err(f) => Err(f),
                    Ok(path) => match required(text_under(project, "domain"@), "domain"@) {
                        Err(f) => Err(f),
                        Ok(domain) => match text_under(project, "compose_file"@) {
                            Err(f) => Err(f),
                            Ok(file) => match required(table_under(top, "network"@), "network"@) {
                                Err(f) => Err(f),
                                Ok(network) => match required(
                                    text_under(network, "name"@),
                                    "name"@,
                                ) {
                                    Err(f) => Err(f),
                                    Ok(network_name) => match table_under(top, "caddy"@) {
                                        Err(f) => Err(f),
                                        Ok(caddy) => match caddy_routes(caddy) {
                                            Err(f) => Err(f),
                                            Ok(routes) => Ok(
                                                ProjectModel {
                                                    name,
                                                    path,
                                                    domain,
                                                    compose_file: match file {
                                                        Some(f) => f,
                                                        None => "docker-compose.yml"@,
                                                    },
                                                    network: network_name,
                                                    routes,
                                                },
                                            ),
                                        },
                                    },
                                },
                            },
                        },
                    },
                },
            },
        },
        _ => Err(Fault::WrongType("project"@)),
    }
}

fn error_of(fault_kind: u8, key: &str) -> (e: ConfigError)
    requires
        fault_kind < 3,
    ensures
        fault_of(e) == Some(
            if fault_kind == 0 {
                Fault::Missing(key@)
            } else if fault_kind == 1 {
                Fault::WrongType(key@)
            } else {
                Fault::Unknown(key@)
            },
        ),
{
    if fault_kind == 0 {
        ConfigError::MissingField(key.to_owned())
    } else if fault_kind == 1 {
        ConfigError::InvalidType(key.to_owned())
    } else {
        ConfigError::UnknownField(key.to_owned())
    }
}

fn get_text(entries: &Vec<(String, TomlValue)>, key: &str) -> (r: Result<Option<String>, ConfigError>)
    ensures
        match r {
            Ok(Some(t)) => text_under(field_models(entries@), key@) == Ok::<
                Option<Seq<char>>,
                Fault,
            >(Some(t@)),
            Ok(None) => text_under(field_models(entries@), key@) == Ok::<Option<Seq<char>>, Fault>(
                None,
            ),
            Err(e) => fault_of(e) is Some && text_under(field_models(entries@), key@) == Err::<
                Option<Seq<char>>,
                Fault,
            >(fault_of(e)->0),
        },
{
    let at = find_field(entries, key);
    if at < entries.len() {
        match &entries[at].1 {
            TomlValue::String(t) => Ok(Some(t.clone())),
            _ => Err(error_of(1, key)),
        }
    } else {
        Ok(None)
    }
}

fn get_required_text(entries: &Vec<(String, TomlValue)>, key: &str) -> (r: Result<
    String,
    ConfigError,
>)
    ensures
        match r {
            Ok(t) => required(text_under(field_models(entries@), key@), key@) == Ok::<
                Seq<char>,
                Fault,
            >(t@),
            Err(e) => fault_of(e) is Some && required(
                text_under(field_models(entries@), key@),
                key@,
            ) == Err::<Seq<char>, Fault>(fault_of(e)->0),
        },
{
    match get_text(entries, key) {
        Ok(Some(t)) => Ok(t),
        Ok(None) => Err(error_of(0, key)),
        Err(e) => Err(e),
    }
}

fn get_flag(entries: &Vec<(String, TomlValue)>, key: &str) -> (r: Result<Option<bool>, ConfigError>)
    ensures
        match r {
            Ok(b) => flag_under(field_models(entries@), key@) == Ok::<Option<bool>, Fault>(b),
            Err(e) => fault_of(e) is Some && flag_under(field_models(entries@), key@) == Err::<
                Option<bool>,
                Fault,
            >(fault_of(e)->0),
        },
{
    let at = find_field(entries, key);
    if at < entries.len() {
        match &entries[at].1 {
            TomlValue::Boolean(b) => Ok(Some(*b)),
            _ => Err(error_of(1, key)),
        }
    } else {
        Ok(None)
    }
}

fn get_table<'a>(entries: &'a Vec<(String, TomlValue)>, key: &str) -> (r: Result<
    Option<&'a Vec<(String, TomlValue)>>,
    ConfigError,
>)
    ensures
        match r {
            Ok(Some(t)) => table_under(field_models(entries@), key@) == Ok::<
                Option<Seq<(Seq<char>, Toml)>>,
                Fault,
            >(Some(field_models(t@))),
            Ok(None) => table_under(field_models(entries@), key@) == Ok::<
                Option<Seq<(Seq<char>, Toml)>>,
                Fault,
            >(None),
            Err(e) => fault_of(e) is Some && table_under(field_models(entries@), key@) == Err::<
                Option<Seq<(Seq<char>, Toml)>>,
                Fault,
            >(fault_of(e)->0),
        },
{
    let at = find_field(entries, key);
    if at < entries.len() {
        match &entries[at].1 {
            TomlValue::Table(t) => {
                proof {
                    lemma_table_model(*t);
                }
                Ok(Some(t))
            },
            _ => Err(error_of(1, key)),
        }
    } else {
        Ok(None)
    }
}

fn get_required_table<'a>(entries: &'a Vec<(String, TomlValue)>, key: &str) -> (r: Result<
    &'a Vec<(String, TomlValue)>,
    ConfigError,
>)
    ensures
        match r {
            Ok(t) => required(table_under(field_models(entries@), key@), key@) == Ok::<
                Seq<(Seq<char>, Toml)>,
                Fault,
            >(field_models(t@)),
            Err(e) => fault_of(e) is Some && required(
                table_under(field_models(entries@), key@),
                key@,
            ) == Err::<Seq<(Seq<char>, Toml)>, Fault>(fault_of(e)->0),
        },
{
    match get_table(entries, key) {
        Ok(Some(t)) => Ok(t),
        Ok(None) => Err(error_of(0, key)),
        Err(e) => Err(e),
    }
}

fn read_routes(caddy: Option<&Vec<(String, TomlValue)>>) -> (r: Result<
    Vec<(String, String)>,
    ConfigError,
>)
    ensures
        match r {
            Ok(routes) => caddy_routes(
                match caddy {
                    Some(c) => Some(field_models(c@)),
                    None => None,
                },
            ) == Ok::<Seq<(Seq<char>, Seq<char>)>, Fault>(pair_texts(routes@)),
            Err(e) => fault_of(e) is Some && caddy_routes(
                match caddy {
                    Some(c) => Some(field_models(c@)),
                    None => None,
                },
            ) == Err::<Seq<(Seq<char>, Seq<char>)>, Fault>(fault_of(e)->0),
        },
{
    let mut routes: Vec<(String, String)> = Vec::new();
    assert(pair_texts(routes@) =~= Seq::<(Seq<char>, Seq<char>)>::empty());
    let entries = match caddy {
        Some(entries) => entries,
        None => {
            return Ok(routes);
        },
    };
    match first_unknown(entries) {
        Some(at) => {
            return Err(error_of(2, entries[at].0.as_str()));
        },
        None => {},
    }
    match get_table(entries, "routes") {
        Ok(Some(table)) => read_targets(table),
        Ok(None) => Ok(routes),
        Err(e) => Err(e),
    }
}

fn first_unknown(entries: &Vec<(String, TomlValue)>) -> (r: Option<usize>)
    ensures
        match r {
            Some(at) => at < entries.len() && unknown_key(field_models(entries@), 0) == Some(
                entries@[at as int].0@,
            ),
            None => unknown_key(field_models(entries@), 0) is None,
        },
{
    let ghost all = field_models(entries@);
    let known = chars_of("routes");
    let mut i: usize = 0;
    while i < entries.len()
        invariant
            i <= entries.len(),
            all == field_models(entries@),
            known@ == "routes"@,
            unknown_key(all, i as int) == unknown_key(all, 0),
        decreases entries.len() - i,
    {
        let key = chars_of(entries[i].0.as_str());
        assert(all[i as int].0 == key@);
        if !crate::text::same_text(&key, &known) {
            return Some(i);
        }
        i += 1;
    }
    None
}

fn read_targets(table: &Vec<(String, TomlValue)>) -> (r: Result<Vec<(String, String)>, ConfigError>)
    ensures
        match r {
            Ok(routes) => routes_of(field_models(table@), table@.len() as int) == Ok::<
                Seq<(Seq<char>, Seq<char>)>,
                Fault,
            >(pair_texts(routes@)),
            Err(e) => fault_of(e) is Some && routes_of(field_models(table@), table@.len() as int)
                == Err::<Seq<(Seq<char>, Seq<char>)>, Fault>(fault_of(e)->0),
        },
{
    let mut routes: Vec<(String, String)> = Vec::new();
    assert(pair_texts(routes@) =~= Seq::<(Seq<char>, Seq<char>)>::empty());
    let ghost targets = field_models(table@);
    let mut k: usize = 0;
    while k < table.len()
        invariant
            k <= table.len(),
            targets == field_models(table@),
            routes_of(targets, k as int) == Ok::<Seq<(Seq<char>, Seq<char>)>, Fault>(
                pair_texts(routes@),
            ),
        decreases table.len() - k,
    {
        assert(targets[k as int] == (table@[k as int].0@, table@[k as int].1@));
        match &table[k].1 {
            TomlValue::String(target) => {
                let route = (table[k].0.clone(), target.clone());
                assert(pair_texts(routes@.push(route))
                    =~= pair_texts(routes@).push((route.0@, route.1@)));
                routes.push(route);
            },
            _ => {
                proof {
                    lemma_routes_fail(targets, k + 1, table@.len() as int);
                }
                return Err(error_of(1, table[k].0.as_str()));
            },
        }
        k += 1;
    }
    Ok(routes)
}

proof fn lemma_routes_fail(entries: Seq<(Seq<char>, Toml)>, n: int, m: int)
    requires
        0 <= n <= m,
        routes_of(entries, n) is Err,
    ensures
        routes_of(entries, m) == routes_of(entries, n),
    decreases m - n,
{
    if n < m {
        lemma_routes_fail(entries, n, m - 1);
    }
}

/// Reads the configuration of a project from a document.
pub fn project_config_from(doc: &TomlValue) -> (r: Result<ProjectConfig, ConfigError>)
    ensures
        match r {
            Ok(config) => project_config_of(doc@) == Ok::<ProjectModel, Fault>(
                project_model(config),
            ),
            Err(e) => fault_of(e) is Some && project_config_of(doc@) == Err::<ProjectModel, Fault>(
                fault_of(e)->0,
            ),
        },
{
    let top = match doc {
        TomlValue::Table(top) => {
            proof {
                lemma_table_model(*top);
            }
            top
        },
        _ => {
            return Err(error_of(1, "project"));
        },
    };
    let project = match get_required_table(top, "project") {
        Ok(t) => t,
        Err(e) => {
            return Err(e);
        },
    };
    let name = match get_required_text(project, "name") {
        Ok(t) => t,
        Err(e) => {
            return Err(e);
        },
    };
    let path = match get_text(project, "path") {
        Ok(t) => t,
        Err(e) => {
            return Err(e);
        },
    };
    let domain = match get_required_text(project, "domain") {
        Ok(t) => t,
        Err(e) => {
            return Err(e);
        },
    };
    let compose_file = match get_text(project, "compose_file") {
        Ok(Some(t)) => t,
        Ok(None) => default_compose_file(),
        Err(e) => {
            return Err(e);
        },
    };
    let network = match get_required_table(top, "network") {
        Ok(t) => t,
        Err(e) => {
            return Err(e);
        },
    };
    let network_name = match get_required_text(network, "name") {
        Ok(t) => t,
        Err(e) => {
            return Err(e);
        },
    };
    let caddy = match get_table(top, "caddy") {
        Ok(t) => t,
        Err(e) => {
            return Err(e);
        },
    };
    let routes = match read_routes(caddy) {
        Ok(r) => r,
        Err(e) => {
            return Err(e);
        },
    };
    Ok(
        ProjectConfig {
            project: ProjectInfo { name, path, domain, compose_file },
            network: NetworkConfig { name: network_name },
            caddy: CaddyConfig { routes },
        },
    )
}

/// An error of reading the text, as an error of the configuration: a
/// syntax error with the same words.
fn syntax_error(e: SettingsError) -> (r: ConfigError)
    ensures
        r matches ConfigError::Syntax(m) && m@ == e.words(),
{
    ConfigError::Syntax(e.message())
}

/// Reads the configuration of a project from its text.
pub fn load_project_config(content: &str) -> (r: Result<ProjectConfig, ConfigError>)
    ensures
        match toml_parsed(content@) {
            Some(doc) => match r {
                Ok(config) => project_config_of(doc) == Ok::<ProjectModel, Fault>(
                    project_model(config),
                ),
                Err(e) => fault_of(e) is Some && project_config_of(doc) == Err::<
                    ProjectModel,
                    Fault,
                >(fault_of(e)->0),
            },
            None => r matches Err(ConfigError::Syntax(_)),
        },
{
    match parse_toml(content) {
        Ok(doc) => project_config_from(&doc),
        Err(e) => Err(syntax_error(e)),
    }
}

/// The global settings.
pub ghost struct GlobalModel {
    pub caddy_network: Seq<char>,
    pub caddy_projects_dir: Seq<char>,
    pub caddy_certs_dir: Seq<char>,
    pub enable_https: bool,
    pub timezone: Option<Seq<char>>,
    pub networks: Seq<NetworkModel>,
}

/// A network that is created when a project comes up.
pub ghost struct NetworkModel {
    pub name: Seq<char>,
    pub driver: Option<Seq<char>>,
    pub subnet: Option<Seq<char>>,
    pub gateway: Option<Seq<char>>,
}

pub open spec fn optional_text(t: Option<String>) -> Option<Seq<char>> {
    match t {
        Some(s) => Some(s@),
        None => None,
    }
}

pub open spec fn network_models(v: Seq<(String, NetworkDefinition)>) -> Seq<NetworkModel> {
    v.map_values(
        |n: (String, NetworkDefinition)|
            NetworkModel {
                name: n.0@,
                driver: optional_text(n.1.driver),
                subnet: optional_text(n.1.subnet),
                gateway: optional_text(n.1.gateway),
            },
    )
}

/// The model of the global settings.
pub open spec fn global_model(c: GlobalConfig) -> GlobalModel {
    GlobalModel {
        caddy_network: c.global.caddy_network@,
        caddy_projects_dir: c.global.caddy_projects_dir@,
        caddy_certs_dir: c.global.caddy_certs_dir@,
        enable_https: c.global.enable_https,
        timezone: optional_text(c.defaults.timezone),
        networks: network_models(c.networks@),
    }
}

/// The network that one entry of `[networks]` defines: the entry must be a
/// table, in which `driver`, `subnet` and `gateway` may be set.
pub open spec fn network_of(name: Seq<char>, value: Toml) -> Result<NetworkModel, Fault> {
    match value {
        Toml::Table(entries) => match text_under(entries, "driver"@) {
            Err(f) => Err(f),
            Ok(driver) => match text_under(entries, "subnet"@) {
                Err(f) => Err(f),
                Ok(subnet) => match text_under(entries, "gateway"@) {
                    Err(f) => Err(f),
                    Ok(gateway) => Ok(NetworkModel { name, driver, subnet, gateway }),
                },
            },
        },
        _ => Err(Fault::WrongType(name)),
    }
}

/// The networks that the first `n` entries of `[networks]` define.
pub open spec fn networks_of(entries: Seq<(Seq<char>, Toml)>, n: int) -> Result<
    Seq<NetworkModel>,
    Fault,
>
    decreases n,
{
    if n <= 0 {
        Ok(Seq::empty())
    } else {
        match networks_of(entries, n - 1) {
            Ok(before) => match network_of(entries[n - 1].0, entries[n - 1].1) {
                Ok(network) => Ok(before.push(network)),
                Err(f) => Err(f),
            },
            Err(f) => Err(f),
        }
    }
}

/// The global settings that a document holds.
///
/// `[global]` must be there with the proxy's network and its two
/// directories; `enable_https` is off unless set. `[defaults]` and
/// `[networks]` may be there. The first fault in this order counts.
pub open spec fn global_config_of(doc: Toml) -> Result<GlobalModel, Fault> {
    match doc {
        Toml::Table(top) => match required(table_under(top, "global"@), "global"@) {
            Err(f) => Err(f),
            Ok(global) => match required(
                text_under(global, "caddy_network"@),
                "caddy_network"@,
            ) {
                Err(f) => Err(f),
                Ok(caddy_network) => match required(
                    text_under(global, "caddy_projects_dir"@),
                    "caddy_projects_dir"@,
                ) {
                    Err(f) => Err(f),
                    Ok(caddy_projects_dir) => match required(
                        text_under(global, "caddy_certs_dir"@),
                        "caddy_certs_dir"@,
                    ) {
                        Err(f) => Err(f),
                        Ok(caddy_certs_dir) => match flag_under(global, "enable_https"@) {
                            Err(f) => Err(f),
                            Ok(https) => match table_under(top, "defaults"@) {
                                Err(f) => Err(f),
                                Ok(defaults) => match (match defaults {
                                    Some(d) => text_under(d, "timezone"@),
                                    None => Ok(None),
                                }) {
                                    Err(f) => Err(f),
                                    Ok(timezone) => match table_under(top, "networks"@) {
                                        Err(f) => Err(f),
                                        Ok(section) => match declared_networks(section) {
                                            Err(f) => Err(f),
                                            Ok(networks) => Ok(
                                                GlobalModel {
                                                    caddy_network,
                                                    caddy_projects_dir,
                                                    caddy_certs_dir,
                                                    enable_https: match https {
                                                        Some(b) => b,
                                                        None => false,
                                                    },
                                                    timezone,
                                                    networks,
                                                },
                                            ),
                                        },
                                    },
                                },
                            },
                        },
                    },
                },
            },
        },
        _ => Err(Fault::WrongType("global"@)),
    }
}

proof fn lemma_networks_fail(entries: Seq<(Seq<char>, Toml)>, n: int, m: int)
    requires
        0 <= n <= m,
        networks_of(entries, n) is Err,
    ensures
        networks_of(entries, m) == networks_of(entries, n),
    decreases m - n,
{
    if n < m {
        lemma_networks_fail(entries, n, m - 1);
    }
}

fn read_network(name: &String, value: &TomlValue) -> (r: Result<
    (String, NetworkDefinition),
    ConfigError,
>)
    ensures
        match r {
            Ok(n) => network_of(name@, value@) == Ok::<NetworkModel, Fault>(
                NetworkModel {
                    name: n.0@,
                    driver: optional_text(n.1.driver),
                    subnet: optional_text(n.1.subnet),
                    gateway: optional_text(n.1.gateway),
                },
            ),
            Err(e) => fault_of(e) is Some && network_of(name@, value@) == Err::<
                NetworkModel,
                Fault,
            >(fault_of(e)->0),
        },
{
    let entries = match value {
        TomlValue::Table(entries) => {
            proof {
                lemma_table_model(*entries);
            }
            entries
        },
        _ => {
            return Err(error_of(1, name.as_str()));
        },
    };
    let driver = match get_text(entries, "driver") {
        Ok(t) => t,
        Err(e) => {
            return Err(e);
        },
    };
    let subnet = match get_text(entries, "subnet") {
        Ok(t) => t,
        Err(e) => {
            return Err(e);
        },
    };
    let gateway = match get_text(entries, "gateway") {
        Ok(t) => t,
        Err(e) => {
            return Err(e);
        },
    };
    Ok((name.clone(), NetworkDefinition { driver, subnet, gateway }))
}

/// The networks of a `[networks]` section; without the section there are
/// none.
pub open spec fn declared_networks(section: Option<Seq<(Seq<char>, Toml)>>) -> Result<
    Seq<NetworkModel>,
    Fault,
> {
    match section {
        Some(n) => networks_of(n, n.len() as int),
        None => Ok(Seq::empty()),
    }
}

fn read_networks(declared: Option<&Vec<(String, TomlValue)>>) -> (r: Result<
    Vec<(String, NetworkDefinition)>,
    ConfigError,
>)
    ensures
        match r {
            Ok(networks) => declared_networks(
                match declared {
                    Some(d) => Some(field_models(d@)),
                    None => None,
                },
            ) == Ok::<Seq<NetworkModel>, Fault>(network_models(networks@)),
            Err(e) => fault_of(e) is Some && declared_networks(
                match declared {
                    Some(d) => Some(field_models(d@)),
                    None => None,
                },
            ) == Err::<Seq<NetworkModel>, Fault>(fault_of(e)->0),
        },
{
    let mut networks: Vec<(String, NetworkDefinition)> = Vec::new();
    assert(network_models(networks@) =~= Seq::<NetworkModel>::empty());
    match declared {
        Some(entries) => {
            let ghost all = field_models(entries@);
            let mut i: usize = 0;
            while i < entries.len()
                invariant
                    i <= entries.len(),
                    declared == Some(entries),
                    all == field_models(entries@),
                    networks_of(all, i as int) == Ok::<Seq<NetworkModel>, Fault>(
                        network_models(networks@),
                    ),
                decreases entries.len() - i,
            {
                assert(all[i as int] == (entries@[i as int].0@, entries@[i as int].1@));
                match read_network(&entries[i].0, &entries[i].1) {
                    Ok(network) => {
                        assert(network_models(networks@.push(network)) =~= network_models(
                            networks@,
                        ).push(
                            NetworkModel {
                                name: network.0@,
                                driver: optional_text(network.1.driver),
                                subnet: optional_text(network.1.subnet),
                                gateway: optional_text(network.1.gateway),
                            },
                        ));
                        networks.push(network);
                    },
                    Err(e) => {
                        proof {
                            lemma_networks_fail(all, i + 1, entries@.len() as int);
                        }
                        return Err(e);
                    },
                }
                i += 1;
            }
        },
        None => {},
    }
    Ok(networks)
}

/// Reads the global settings from a document.
pub fn global_config_from(doc: &TomlValue) -> (r: Result<GlobalConfig, ConfigError>)
    ensures
        match r {
            Ok(config) => global_config_of(doc@) == Ok::<GlobalModel, Fault>(global_model(config)),
            Err(e) => fault_of(e) is Some && global_config_of(doc@) == Err::<GlobalModel, Fault>(
                fault_of(e)->0,
            ),
        },
{
    let top = match doc {
        TomlValue::Table(top) => {
            proof {
                lemma_table_model(*top);
            }
            top
        },
        _ => {
            return Err(error_of(1, "global"));
        },
    };
    let global = match get_required_table(top, "global") {
        Ok(t) => t,
        Err(e) => {
            return Err(e);
        },
    };
    let caddy_network = match get_required_text(global, "caddy_network") {
        Ok(t) => t,
        Err(e) => {
            return Err(e);
        },
    };
    let caddy_projects_dir = match get_required_text(global, "caddy_projects_dir") {
        Ok(t) => t,
        Err(e) => {
            return Err(e);
        },
    };
    let caddy_certs_dir = match get_required_text(global, "caddy_certs_dir") {
        Ok(t) => t,
        Err(e) => {
            return Err(e);
        },
    };
    let enable_https = match get_flag(global, "enable_https") {
        Ok(Some(b)) => b,
        Ok(None) => false,
        Err(e) => {
            return Err(e);
        },
    };
    let defaults = match get_table(top, "defaults") {
        Ok(t) => t,
        Err(e) => {
            return Err(e);
        },
    };
    let timezone = match defaults {
        Some(d) => match get_text(d, "timezone") {
            Ok(t) => t,
            Err(e) => {
                return Err(e);
            },
        },
        None => None,
    };
    let declared = match get_table(top, "networks") {
        Ok(t) => t,
        Err(e) => {
            return Err(e);
        },
    };
    let networks = match read_networks(declared) {
        Ok(n) => n,
        Err(e) => {
            return Err(e);
        },
    };
    Ok(
        GlobalConfig {
            global: GlobalSettings {
                caddy_network,
                caddy_projects_dir,
                caddy_certs_dir,
                enable_https,
            },
            defaults: DefaultSettings { timezone },
            networks,
        },
    )
}

/// Reads the global settings from their text.
pub fn load_global_config(content: &str) -> (r: Result<GlobalConfig, ConfigError>)
    ensures
        match toml_parsed(content@) {
            Some(doc) => match r {
                Ok(config) => global_config_of(doc) == Ok::<GlobalModel, Fault>(
                    global_model(config),
                ),
                Err(e) => fault_of(e) is Some && global_config_of(doc) == Err::<
                    GlobalModel,
                    Fault,
                >(fault_of(e)->0),
            },
            None => r matches Err(ConfigError::Syntax(_)),
        },
{
    match parse_toml(content) {
        Ok(doc) => global_config_from(&doc),
        Err(e) => Err(syntax_error(e)),
    }
}

} // verus!

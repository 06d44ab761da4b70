//! The global settings file: its TOML text as a tree of plain values, and
//! the migration that brings an old file up to date.
//!
//! Reading and writing TOML text is the work of the `toml` crate.
use crate::text::{chars_of, extend_chars, same_text, string_of};
use toml::Value;
use vstd::prelude::*;

verus! {

/// A TOML value. A float stands by its sign and its text, a date by its
/// text, a table by its entries.
pub enum Toml {
    Text(Seq<char>),
    Integer(i64),
    Float(bool, Seq<char>),
    Boolean(bool),
    Datetime(Seq<char>),
    Array(Seq<Toml>),
    Table(Seq<(Seq<char>, Toml)>),
}

/// Index of the first entry at or after `from` with the key `key`, or
/// `entries.len()`.
pub open spec fn field_index(entries: Seq<(Seq<char>, Toml)>, key: Seq<char>, from: int) -> int
    decreases entries.len() - from,
{
    if 0 <= from < entries.len() && entries[from].0 != key {
        field_index(entries, key, from + 1)
    } else {
        from
    }
}

/// The value under `key`.
pub open spec fn field(entries: Seq<(Seq<char>, Toml)>, key: Seq<char>) -> Option<Toml> {
    let i = field_index(entries, key, 0);
    if i < entries.len() {
        Some(entries[i].1)
    } else {
        None
    }
}

/// The entries with `value` under `key`, unless the key is there already.
pub open spec fn with_default(entries: Seq<(Seq<char>, Toml)>, key: Seq<char>, value: Toml) -> Seq<
    (Seq<char>, Toml),
> {
    if field(entries, key) is Some {
        entries
    } else {
        entries.push((key, value))
    }
}

/// The entries with `value` under `key`, in the place of the old value or
/// as a new entry.
pub open spec fn with_field(entries: Seq<(Seq<char>, Toml)>, key: Seq<char>, value: Toml) -> Seq<
    (Seq<char>, Toml),
> {
    let i = field_index(entries, key, 0);
    if i < entries.len() {
        entries.update(i, (key, value))
    } else {
        entries.push((key, value))
    }
}

/// The `[global]` section with every setting it must have.
pub open spec fn global_with_defaults(entries: Seq<(Seq<char>, Toml)>) -> Seq<(Seq<char>, Toml)> {
    let a = with_default(entries, "caddy_network"@, Toml::Text("caddy-net"@));
    let b = with_default(a, "caddy_projects_dir"@, Toml::Text("caddy/projects"@));
    let c = with_default(b, "caddy_certs_dir"@, Toml::Text("caddy/certs"@));
    with_default(c, "enable_https"@, Toml::Boolean(true))
}

/// The settings after the first migration: the sections `[global]`,
/// `[defaults]` and `[networks]` are there, and `[global]` has all of its
/// settings. What the file sets stays as it is. A `global` that is no table
/// is left alone.
pub open spec fn migrated_fields(entries: Seq<(Seq<char>, Toml)>) -> Seq<(Seq<char>, Toml)> {
    let a = match field(entries, "global"@) {
        Some(Toml::Table(global)) => with_field(
            entries,
            "global"@,
            Toml::Table(global_with_defaults(global)),
        ),
        Some(_) => entries,
        None => entries.push(("global"@, Toml::Table(global_with_defaults(Seq::empty())))),
    };
    let b = with_default(
        a,
        "defaults"@,
        Toml::Table(seq![("timezone"@, Toml::Text("Asia/Tokyo"@))]),
    );
    with_default(b, "networks"@, Toml::Table(seq![("caddy-net"@, Toml::Table(Seq::empty()))]))
}

/// The settings after the first migration; `None` when the settings are no
/// table.
pub open spec fn migrated_v1(config: Toml) -> Option<Toml> {
    match config {
        Toml::Table(entries) => Some(Toml::Table(migrated_fields(entries))),
        _ => None,
    }
}

/// The version that a settings file is at: its `version`, 0 without one.
pub open spec fn version_of(config: Toml) -> i64 {
    match config {
        Toml::Table(entries) => match field(entries, "version"@) {
            Some(Toml::Integer(v)) => v,
            _ => 0,
        },
        _ => 0,
    }
}

/// The version that this crate writes.
pub open spec fn current_version() -> i64 {
    1
}

/// Whether a file at `version` has to be migrated. The version counts as an
/// unsigned number of 32 bits.
pub open spec fn is_outdated(version: i64) -> bool {
    version % 0x1_0000_0000 == 0
}

/// The settings brought up to date: migrated and stamped with the current
/// version.
pub open spec fn up_to_date(config: Toml) -> Option<Toml> {
    match migrated_v1(config) {
        Some(Toml::Table(entries)) => Some(
            Toml::Table(with_field(entries, "version"@, Toml::Integer(current_version()))),
        ),
        _ => None,
    }
}

/// What every migrated file begins with.
pub open spec fn header() -> Seq<char> {
    "# Global Configuration for oh-my-dockers\n# DO NOT EDIT the version field manually\n"@
}

pub proof fn lemma_field_index(entries: Seq<(Seq<char>, Toml)>, key: Seq<char>, from: int)
    requires
        0 <= from <= entries.len(),
    ensures
        from <= field_index(entries, key, from) <= entries.len(),
        forall|k: int|
            from <= k < field_index(entries, key, from) ==> (#[trigger] entries[k]).0 != key,
        field_index(entries, key, from) < entries.len() ==> entries[field_index(
            entries,
            key,
            from,
        )].0 == key,
    decreases entries.len() - from,
{
    if from < entries.len() && entries[from].0 != key {
        lemma_field_index(entries, key, from + 1);
    }
}

pub proof fn lemma_field_index_is(entries: Seq<(Seq<char>, Toml)>, key: Seq<char>, from: int, i: int)
    requires
        0 <= from <= i <= entries.len(),
        forall|k: int| from <= k < i ==> (#[trigger] entries[k]).0 != key,
        i < entries.len() ==> entries[i].0 == key,
    ensures
        field_index(entries, key, from) == i,
    decreases i - from,
{
    if from < i {
        lemma_field_index_is(entries, key, from + 1, i);
    }
}

/// A default never replaces what is set, and is there afterwards.
pub proof fn lemma_with_default(
    entries: Seq<(Seq<char>, Toml)>,
    key: Seq<char>,
    value: Toml,
    other: Seq<char>,
)
    ensures
        field(with_default(entries, key, value), other) == if other == key && field(entries, key)
            is None {
            Some(value)
        } else {
            field(entries, other)
        },
{
    lemma_field_index(entries, key, 0);
    lemma_field_index(entries, other, 0);
    if field(entries, key) is None {
        let after = entries.push((key, value));
        let k = field_index(entries, other, 0);
        assert forall|m: int| 0 <= m < k implies (#[trigger] after[m]).0 != other by {
            assert(after[m] == entries[m]);
        }
        if k < entries.len() {
            assert(after[k] == entries[k]);
            lemma_field_index_is(after, other, 0, k);
        } else if other == key {
            lemma_field_index_is(after, other, 0, entries.len() as int);
        } else {
            lemma_field_index_is(after, other, 0, after.len() as int);
        }
    }
}

/// Migrating keeps every setting of the file: what the file sets under a
/// key other than `global` is found unchanged, and the three sections are
/// there afterwards.
pub proof fn law_migration_keeps_settings(entries: Seq<(Seq<char>, Toml)>, key: Seq<char>)
    ensures
        key != "global"@ && field(entries, key) is Some ==> field(migrated_fields(entries), key)
            == field(entries, key),
        field(migrated_fields(entries), "global"@) is Some,
        field(migrated_fields(entries), "defaults"@) is Some,
        field(migrated_fields(entries), "networks"@) is Some,
{
    reveal_strlit("global");
    reveal_strlit("defaults");
    reveal_strlit("networks");
    let global = "global"@;
    let a = match field(entries, global) {
        Some(Toml::Table(g)) => with_field(entries, global, Toml::Table(global_with_defaults(g))),
        Some(_) => entries,
        None => entries.push((global, Toml::Table(global_with_defaults(Seq::empty())))),
    };
    lemma_field_index(entries, global, 0);
    lemma_field_index(entries, key, 0);
    let at = field_index(entries, global, 0);
    assert(field(a, global) is Some) by {
        if at < entries.len() {
            assert forall|m: int| 0 <= m < at implies (#[trigger] a[m]).0 != global by {
                assert(a[m].0 == entries[m].0);
            }
            assert(a[at].0 == global);
            lemma_field_index_is(a, global, 0, at);
        } else {
            assert forall|m: int| 0 <= m < at implies (#[trigger] a[m]).0 != global by {
                assert(a[m] == entries[m]);
            }
            lemma_field_index_is(a, global, 0, at);
        }
    }
    if key != global && field(entries, key) is Some {
        let k = field_index(entries, key, 0);
        assert forall|m: int| 0 <= m < k implies (#[trigger] a[m]).0 != key by {
            assert(a[m].0 == entries[m].0);
        }
        assert(a[k] == entries[k]);
        lemma_field_index_is(a, key, 0, k);
        assert(field(a, key) == field(entries, key));
    }
    assert("global"@.len() == 6 && "defaults"@.len() == 8 && "networks"@.len() == 8);
    assert("defaults"@[0] == 'd' && "networks"@[0] == 'n' && global[0] == 'g');
    let defaults = Toml::Table(seq![("timezone"@, Toml::Text("Asia/Tokyo"@))]);
    let networks = Toml::Table(seq![("caddy-net"@, Toml::Table(Seq::empty()))]);
    let b = with_default(a, "defaults"@, defaults);
    lemma_with_default(a, "defaults"@, defaults, key);
    lemma_with_default(a, "defaults"@, defaults, global);
    lemma_with_default(a, "defaults"@, defaults, "defaults"@);
    lemma_with_default(b, "networks"@, networks, key);
    lemma_with_default(b, "networks"@, networks, global);
    lemma_with_default(b, "networks"@, networks, "defaults"@);
    lemma_with_default(b, "networks"@, networks, "networks"@);
}

// ---------------------------------------------------------------------------
// The tree as plain values
// ---------------------------------------------------------------------------

/// A TOML value held as plain values.
#[derive(Debug)]
pub enum TomlValue {
    String(String),
    Integer(i64),
    /// A float: whether its sign is negative, and its text.
    Float(bool, String),
    Boolean(bool),
    /// A date or time, by its text.
    Datetime(String),
    Array(Vec<TomlValue>),
    /// The entries of a table.
    Table(Vec<(String, TomlValue)>),
}

impl TomlValue {
    /// The value this stands for.
    pub open spec fn model(self) -> Toml
        decreases self,
    {
        match self {
            TomlValue::String(t) => Toml::Text(t@),
            TomlValue::Integer(i) => Toml::Integer(i),
            TomlValue::Float(negative, t) => Toml::Float(negative, t@),
            TomlValue::Boolean(b) => Toml::Boolean(b),
            TomlValue::Datetime(t) => Toml::Datetime(t@),
            TomlValue::Array(items) => Toml::Array(
                Seq::new(
                    items@.len(),
                    |i: int|
                        if 0 <= i < items@.len() {
                            items@[i].model()
                        } else {
                            Toml::Boolean(false)
                        },
                ),
            ),
            TomlValue::Table(entries) => Toml::Table(
                Seq::new(
                    entries@.len(),
                    |i: int|
                        if 0 <= i < entries@.len() {
                            (entries@[i].0@, entries@[i].1.model())
                        } else {
                            (Seq::empty(), Toml::Boolean(false))
                        },
                ),
            ),
        }
    }
}

impl View for TomlValue {
    type V = Toml;

    open spec fn view(&self) -> Toml {
        self.model()
    }
}

/// The models of the entries of a table.
pub open spec fn field_models(entries: Seq<(String, TomlValue)>) -> Seq<(Seq<char>, Toml)> {
    Seq::new(entries.len(), |i: int| (entries[i].0@, entries[i].1@))
}

pub proof fn lemma_table_model(entries: Vec<(String, TomlValue)>)
    ensures
        TomlValue::Table(entries)@ == Toml::Table(field_models(entries@)),
{
    assert(TomlValue::Table(entries)@->Table_0 =~= field_models(entries@));
}

fn text(s: &str) -> (v: TomlValue)
    ensures
        v@ == Toml::Text(s@),
{
    TomlValue::String(s.to_owned())
}

fn table(entries: Vec<(String, TomlValue)>) -> (v: TomlValue)
    ensures
        v@ == Toml::Table(field_models(entries@)),
{
    proof {
        lemma_table_model(entries);
    }
    TomlValue::Table(entries)
}

/// Position of the first entry with the key `key`, or `entries.len()`.
pub fn find_field(entries: &Vec<(String, TomlValue)>, key: &str) -> (i: usize)
    ensures
        i == field_index(field_models(entries@), key@, 0),
        i <= entries.len(),
{
    let wanted = chars_of(key);
    let mut i: usize = 0;
    while i < entries.len()
        invariant
            i <= entries.len(),
            wanted@ == key@,
            field_index(field_models(entries@), key@, i as int) == field_index(
                field_models(entries@),
                key@,
                0,
            ),
        decreases entries.len() - i,
    {
        let name = chars_of(entries[i].0.as_str());
        assert(field_models(entries@)[i as int].0 == name@);
        if same_text(&name, &wanted) {
            return i;
        }
        i += 1;
    }
    i
}

impl TomlValue {
    /// The value under `key`, when this is a table that has the key.
    pub fn get(&self, key: &str) -> (r: Option<&TomlValue>)
        ensures
            match r {
                Some(v) => self@ matches Toml::Table(entries) && field(entries, key@) == Some(v@),
                None => self@ matches Toml::Table(entries) ==> field(entries, key@) is None,
            },
    {
        match self {
            TomlValue::Table(entries) => {
                proof {
                    lemma_table_model(*entries);
                }
                let at = find_field(entries, key);
                if at < entries.len() {
                    Some(&entries[at].1)
                } else {
                    None
                }
            },
            _ => None,
        }
    }

    /// The string, when this is one.
    pub fn as_str(&self) -> (r: Option<&String>)
        ensures
            match r {
                Some(t) => self@ == Toml::Text(t@),
                None => !(self@ is Text),
            },
    {
        match self {
            TomlValue::String(t) => Some(t),
            _ => None,
        }
    }
}

/// Puts `value` under `key` unless the key is there already.
fn add_default(entries: &mut Vec<(String, TomlValue)>, key: &str, value: TomlValue)
    ensures
        field_models(final(entries)@) == with_default(field_models(old(entries)@), key@, value@),
{
    let i = find_field(entries, key);
    if i >= entries.len() {
        entries.push((key.to_owned(), value));
        assert(field_models(entries@) =~= field_models(old(entries)@).push((key@, value@)));
    }
}

/// Puts `value` under `key`, in the place of the old value if there is one.
fn set_field(entries: &mut Vec<(String, TomlValue)>, key: &str, value: TomlValue)
    ensures
        field_models(final(entries)@) == with_field(field_models(old(entries)@), key@, value@),
{
    let i = find_field(entries, key);
    if i < entries.len() {
        entries.set(i, (key.to_owned(), value));
        assert(field_models(entries@) =~= field_models(old(entries)@).update(
            i as int,
            (key@, value@),
        ));
    } else {
        entries.push((key.to_owned(), value));
        assert(field_models(entries@) =~= field_models(old(entries)@).push((key@, value@)));
    }
}

fn add_global_defaults(entries: &mut Vec<(String, TomlValue)>)
    ensures
        field_models(final(entries)@) == global_with_defaults(field_models(old(entries)@)),
{
    add_default(entries, "caddy_network", text("caddy-net"));
    add_default(entries, "caddy_projects_dir", text("caddy/projects"));
    add_default(entries, "caddy_certs_dir", text("caddy/certs"));
    add_default(entries, "enable_https", TomlValue::Boolean(true));
}

/// Migration from version 0, a file without a version, to version 1: makes
/// sure that the sections `[global]`, `[defaults]` and `[networks]` are
/// there and that `[global]` has all of its settings. Fails when the
/// settings are no table.
pub fn migrate_v0_to_v1(config: TomlValue) -> (r: Option<TomlValue>)
    ensures
        match r {
            Some(after) => migrated_v1(config@) == Some(after@),
            None => migrated_v1(config@) is None,
        },
{
    match config {
        TomlValue::Table(mut entries) => {
            proof {
                lemma_table_model(entries);
            }
            let ghost before = field_models(entries@);
            let at = find_field(&entries, "global");
            if at < entries.len() {
                let is_table = match &entries[at].1 {
                    TomlValue::Table(_) => true,
                    _ => false,
                };
                if is_table {
                    let (_, global) = entries.remove(at);
                    match global {
                        TomlValue::Table(mut fields) => {
                            proof {
                                lemma_table_model(fields);
                            }
                            add_global_defaults(&mut fields);
                            entries.insert(at, ("global".to_owned(), table(fields)));
                        },
                        _ => {},
                    }
                    proof {
                        lemma_field_index(before, "global"@, 0);
                        assert(field_models(entries@) =~= with_field(
                            before,
                            "global"@,
                            Toml::Table(global_with_defaults(before[at as int].1->Table_0)),
                        ));
                    }
                }
            } else {
                let mut fields: Vec<(String, TomlValue)> = Vec::new();
                assert(field_models(fields@) =~= Seq::<(Seq<char>, Toml)>::empty());
                add_global_defaults(&mut fields);
                entries.push(("global".to_owned(), table(fields)));
                assert(field_models(entries@) =~= before.push(
                    ("global"@, Toml::Table(global_with_defaults(Seq::empty()))),
                ));
            }
            let mut defaults: Vec<(String, TomlValue)> = Vec::new();
            defaults.push(("timezone".to_owned(), text("Asia/Tokyo")));
            assert(field_models(defaults@) =~= seq![("timezone"@, Toml::Text("Asia/Tokyo"@))]);
            add_default(&mut entries, "defaults", table(defaults));
            let mut networks: Vec<(String, TomlValue)> = Vec::new();
            let none: Vec<(String, TomlValue)> = Vec::new();
            assert(field_models(none@) =~= Seq::<(Seq<char>, Toml)>::empty());
            networks.push(("caddy-net".to_owned(), table(none)));
            assert(field_models(networks@) =~= seq![("caddy-net"@, Toml::Table(Seq::empty()))]);
            add_default(&mut entries, "networks", table(networks));
            Some(table(entries))
        },
        _ => None,
    }
}

/// The version that a settings file is at.
pub fn config_version(config: &TomlValue) -> (version: i64)
    ensures
        version == version_of(config@),
{
    match config {
        TomlValue::Table(entries) => {
            proof {
                lemma_table_model(*entries);
            }
            let at = find_field(entries, "version");
            if at < entries.len() {
                match &entries[at].1 {
                    TomlValue::Integer(v) => *v,
                    _ => 0,
                }
            } else {
                0
            }
        },
        _ => 0,
    }
}

/// Whether a file at `version` has to be migrated.
pub fn needs_migration(version: i64) -> (b: bool)
    ensures
        b == is_outdated(version),
{
    version % 0x1_0000_0000 == 0
}

/// Brings settings up to date: migrates them and stamps them with the
/// current version. Fails when the settings are no table.
pub fn migrate(config: TomlValue) -> (r: Option<TomlValue>)
    ensures
        match r {
            Some(after) => up_to_date(config@) == Some(after@),
            None => up_to_date(config@) is None,
        },
{
    match migrate_v0_to_v1(config) {
        Some(TomlValue::Table(mut entries)) => {
            proof {
                lemma_table_model(entries);
            }
            set_field(&mut entries, "version", TomlValue::Integer(1));
            Some(table(entries))
        },
        _ => None,
    }
}

// ---------------------------------------------------------------------------
// Reading and writing text
// ---------------------------------------------------------------------------

#[verifier::external_type_specification]
#[verifier::external_body]
pub struct ExTomlValue(toml::Value);

#[verifier::external_type_specification]
#[verifier::external_body]
pub struct ExTomlReadError(toml::de::Error);

#[verifier::external_type_specification]
#[verifier::external_body]
pub struct ExTomlWriteError(toml::ser::Error);

/// The value that `toml` reads from a text, `None` where it refuses the
/// text.
pub uninterp spec fn toml_parsed(text: Seq<char>) -> Option<Toml>;

/// The tree that a value of `toml` holds.
pub uninterp spec fn toml_tree(value: toml::Value) -> Toml;

/// The tree as `toml` holds it once a value was built from it: the same
/// tree, but for the texts of floats and dates and the order of the keys.
/// `None` for a tree of which no value can be built, because the text of
/// one of its floats or dates is none.
pub uninterp spec fn toml_reread(tree: Toml) -> Option<Toml>;

/// The text that `toml` writes for a value, `None` where it cannot write
/// it.
pub uninterp spec fn toml_text(tree: Toml) -> Option<Seq<char>>;

/// `toml::from_str` for a `Value`: reads a TOML document. The value holds
/// what the text denotes; it fails exactly on the texts that denote nothing.
#[verifier::external_body]
fn value_from_str(text: &str) -> (r: Result<Value, toml::de::Error>)
    ensures
        match r {
            Ok(v) => toml_parsed(text@) == Some(toml_tree(v)),
            Err(_) => toml_parsed(text@) is None,
        },
{
    toml::from_str::<Value>(text)
}

/// The variants of `toml::Value`, one for one: a float by its sign and
/// the text that its `Display` gives (the sign tells the two kinds of NaN
/// apart, which `toml` writes differently), a date by the text that its
/// `Display` gives, a table by its entries in the order of the map.
#[verifier::external_body]
fn node_from_value(v: &Value) -> (n: TomlValue)
    ensures
        n@ == toml_tree(*v),
{
    match v {
        Value::String(s) => TomlValue::String(s.clone()),
        Value::Integer(i) => TomlValue::Integer(*i),
        Value::Float(x) => TomlValue::Float(x.is_sign_negative(), x.to_string()),
        Value::Boolean(b) => TomlValue::Boolean(*b),
        Value::Datetime(d) => TomlValue::Datetime(d.to_string()),
        Value::Array(a) => TomlValue::Array(a.iter().map(node_from_value).collect()),
        Value::Table(t) => TomlValue::Table(t.iter().map(|(k, x)| (k.clone(), node_from_value(x))).collect()),
    }
}

/// The way back: builds the `toml::Value` of a tree, one variant for one.
/// A float and a date are read from their text by `FromStr`, which may
/// fail; a table is collected into the map of `toml`, where a key that
/// occurs again replaces the earlier one. What comes of it depends on the
/// tree alone.
#[verifier::external_body]
fn value_from_node(n: &TomlValue) -> (r: Option<Value>)
    ensures
        match r {
            Some(v) => toml_reread(n@) == Some(toml_tree(v)),
            None => toml_reread(n@) is None,
        },
{
    Some(match n {
        TomlValue::String(s) => Value::String(s.clone()),
        TomlValue::Integer(i) => Value::Integer(*i),
        TomlValue::Float(_, t) => Value::Float(t.parse().ok()?),
        TomlValue::Boolean(b) => Value::Boolean(*b),
        TomlValue::Datetime(t) => Value::Datetime(t.parse().ok()?),
        TomlValue::Array(a) => Value::Array(a.iter().map(value_from_node).collect::<Option<_>>()?),
        TomlValue::Table(t) => Value::Table(t.iter().map(|(k, x)| Some((k.clone(), value_from_node(x)?))).collect::<Option<_>>()?),
    })
}

/// `toml::to_string_pretty`: the TOML text of a value, which depends on the
/// tree alone.
#[verifier::external_body]
fn value_to_string(v: &Value) -> (r: Result<String, toml::ser::Error>)
    ensures
        match r {
            Ok(s) => toml_text(toml_tree(*v)) == Some(s@),
            Err(_) => toml_text(toml_tree(*v)) is None,
        },
{
    toml::to_string_pretty(v)
}

/// `to_string` on a `toml::de::Error`: the message that its `Display`
/// gives. Nothing is claimed of the text.
#[verifier::external_body]
fn read_error_message(e: &toml::de::Error) -> (message: String) {
    e.to_string()
}

/// `to_string` on a `toml::ser::Error`: the message that its `Display`
/// gives. Nothing is claimed of the text.
#[verifier::external_body]
fn write_error_message(e: &toml::ser::Error) -> (message: String) {
    e.to_string()
}

/// Why settings could not be read, migrated or written.
#[derive(Debug)]
pub enum SettingsError {
    /// The text is no TOML document. The message says where it went wrong.
    Syntax(String),
    /// The settings are no table.
    NotATable,
    /// The text of a float or of a date of the tree is none.
    Unwritable,
    /// The tree cannot be written as TOML.
    Refused(String),
}

impl SettingsError {
    /// The words of the error.
    pub open spec fn words(&self) -> Seq<char> {
        match self {
            SettingsError::Syntax(m) => m@,
            SettingsError::NotATable => "Config is not a table"@,
            SettingsError::Unwritable => "Failed to serialize config"@,
            SettingsError::Refused(m) => m@,
        }
    }

    /// The error in words.
    pub fn message(&self) -> (text: String)
        ensures
            text@ == self.words(),
    {
        match self {
            SettingsError::Syntax(m) => m.clone(),
            SettingsError::NotATable => "Config is not a table".to_owned(),
            SettingsError::Unwritable => "Failed to serialize config".to_owned(),
            SettingsError::Refused(m) => m.clone(),
        }
    }
}

/// Reads settings from their text.
pub fn parse_toml(text: &str) -> (r: Result<TomlValue, SettingsError>)
    ensures
        match r {
            Ok(config) => toml_parsed(text@) == Some(config@),
            Err(e) => toml_parsed(text@) is None && e is Syntax,
        },
{
    match value_from_str(text) {
        Ok(v) => Ok(node_from_value(&v)),
        Err(e) => Err(SettingsError::Syntax(read_error_message(&e))),
    }
}

/// The text that is written for a tree.
pub open spec fn written(tree: Toml) -> Option<Seq<char>> {
    match toml_reread(tree) {
        Some(held) => toml_text(held),
        None => None,
    }
}

/// Writes settings as text.
pub fn render_toml(config: &TomlValue) -> (r: Result<String, SettingsError>)
    ensures
        match r {
            Ok(text) => written(config@) == Some(text@),
            Err(e) => written(config@) is None && (e is Unwritable || e is Refused),
        },
{
    match value_from_node(config) {
        Some(v) => match value_to_string(&v) {
            Ok(text) => Ok(text),
            Err(e) => Err(SettingsError::Refused(write_error_message(&e))),
        },
        None => Err(SettingsError::Unwritable),
    }
}

/// What migrating a settings file comes to: nothing to do, or the new text
/// of the file.
pub open spec fn migration_of(content: Seq<char>) -> Option<Result<Option<Seq<char>>, ()>> {
    match toml_parsed(content) {
        Some(config) => if !is_outdated(version_of(config)) {
            Some(Ok(None))
        } else {
            match up_to_date(config) {
                Some(after) => match written(after) {
                    Some(text) => Some(Ok(Some(header() + text))),
                    None => Some(Err(())),
                },
                None => Some(Err(())),
            }
        },
        None => None,
    }
}

/// Migrates a settings file if it is outdated. Given the text of the file,
/// returns the new text, or `None` when the file is up to date.
pub fn migrate_config_if_needed(content: &str) -> (r: Result<Option<String>, SettingsError>)
    ensures
        match migration_of(content@) {
            None => r matches Err(SettingsError::Syntax(_)),
            Some(Ok(None)) => r matches Ok(None),
            Some(Ok(Some(text))) => r matches Ok(Some(new_content)) && new_content@ == text,
            Some(Err(_)) => r is Err && !(r matches Err(SettingsError::Syntax(_))),
        },
{
    let config = match parse_toml(content) {
        Ok(config) => config,
        Err(e) => {
            return Err(e);
        },
    };
    if !needs_migration(config_version(&config)) {
        return Ok(None);
    }
    let after = match migrate(config) {
        Some(after) => after,
        None => {
            return Err(SettingsError::NotATable);
        },
    };
    match render_toml(&after) {
        Ok(text) => {
            let mut out = chars_of(
                "# Global Configuration for oh-my-dockers\n# DO NOT EDIT the version field manually\n",
            );
            extend_chars(&mut out, &chars_of(text.as_str()));
            Ok(Some(string_of(&out)))
        },
        Err(e) => Err(e),
    }
}

/// The name of the copy of a settings file taken at `stamp` before it is
/// migrated.
pub fn config_backup_name(file_name: &str, stamp: &str) -> (name: String)
    ensures
        name@ == file_name@ + ".backup."@ + stamp@,
{
    let mut out = chars_of(file_name);
    extend_chars(&mut out, &chars_of(".backup."));
    extend_chars(&mut out, &chars_of(stamp));
    string_of(&out)
}

} // verus!

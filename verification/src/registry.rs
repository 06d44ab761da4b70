//! The registry of projects and the host ports that each of them holds.
//!
//! A project is registered under its name. Registering a name again
//! replaces the entry; nothing stops two projects from holding the same
//! port, but `check_port_conflicts` reports every such overlap with another
//! project, so that the caller can refuse before it registers.
use crate::order::{ascending, is_arrangement, sorted_order};
use crate::text::{chars_of, rows, same_text, texts};
use vstd::prelude::*;

verus! {

/// A registered project.
pub ghost struct Entry {
    pub name: Seq<char>,
    pub path: Seq<char>,
    pub domain: Seq<char>,
    pub network: Seq<char>,
    pub ports: Seq<u16>,
    pub containers: Seq<Seq<char>>,
}

/// A registered project with the host ports it holds.
#[derive(Debug, Clone)]
pub struct ProjectEntry {
    /// Project name
    pub name: String,
    /// Absolute path to the project directory
    pub path: String,
    /// Project domain
    pub domain: String,
    /// Network name
    pub network: String,
    /// Host ports that the project holds
    pub ports: Vec<u16>,
    /// Container names
    pub containers: Vec<String>,
}

impl View for ProjectEntry {
    type V = Entry;

    open spec fn view(&self) -> Entry {
        Entry {
            name: self.name@,
            path: self.path@,
            domain: self.domain@,
            network: self.network@,
            ports: self.ports@,
            containers: texts(self.containers@),
        }
    }
}

/// Index of the first project at or after `from` called `name`, or
/// `reg.len()`.
pub open spec fn index_of_project(reg: Seq<Entry>, name: Seq<char>, from: int) -> int
    decreases reg.len() - from,
{
    if 0 <= from < reg.len() && reg[from].name != name {
        index_of_project(reg, name, from + 1)
    } else {
        from
    }
}

/// The entry of project `name`.
pub open spec fn find(reg: Seq<Entry>, name: Seq<char>) -> Option<Entry> {
    let i = index_of_project(reg, name, 0);
    if i < reg.len() {
        Some(reg[i])
    } else {
        None
    }
}

/// Index of the first project at or after `from` whose directory is `path`,
/// or `reg.len()`.
pub open spec fn index_of_path(reg: Seq<Entry>, path: Seq<char>, from: int) -> int
    decreases reg.len() - from,
{
    if 0 <= from < reg.len() && reg[from].path != path {
        index_of_path(reg, path, from + 1)
    } else {
        from
    }
}

/// The first project whose directory is `path`.
pub open spec fn find_by_path(reg: Seq<Entry>, path: Seq<char>) -> Option<Entry> {
    let i = index_of_path(reg, path, 0);
    if i < reg.len() {
        Some(reg[i])
    } else {
        None
    }
}

/// The registry with `entry` in the place of the project of the same name,
/// or at the end when there was none.
pub open spec fn put(reg: Seq<Entry>, entry: Entry) -> Seq<Entry> {
    let i = index_of_project(reg, entry.name, 0);
    if i < reg.len() {
        reg.update(i, entry)
    } else {
        reg.push(entry)
    }
}

/// The registry without the project called `name`.
pub open spec fn without(reg: Seq<Entry>, name: Seq<char>) -> Seq<Entry> {
    let i = index_of_project(reg, name, 0);
    if i < reg.len() {
        reg.remove(i)
    } else {
        reg
    }
}

/// No two projects have the same name.
pub open spec fn distinct_projects(reg: Seq<Entry>) -> bool {
    forall|i: int, j: int|
        #![trigger reg[i], reg[j]]
        0 <= i < j < reg.len() ==> reg[i].name != reg[j].name
}

/// The conflicts of one candidate port with the first `n` projects: one for
/// each project other than `name` that holds the port.
pub open spec fn port_owners(reg: Seq<Entry>, name: Seq<char>, port: u16, n: int) -> Seq<
    (u16, Seq<char>),
>
    decreases n,
{
    if n <= 0 {
        Seq::empty()
    } else {
        let before = port_owners(reg, name, port, n - 1);
        if reg[n - 1].name != name && reg[n - 1].ports.contains(port) {
            before.push((port, reg[n - 1].name))
        } else {
            before
        }
    }
}

/// The conflicts of the first `k` candidate ports: port by port, and for
/// each port project by project.
pub open spec fn conflicts(reg: Seq<Entry>, name: Seq<char>, ports: Seq<u16>, k: int) -> Seq<
    (u16, Seq<char>),
>
    decreases k,
{
    if k <= 0 {
        Seq::empty()
    } else {
        conflicts(reg, name, ports, k - 1) + port_owners(
            reg,
            name,
            ports[k - 1],
            reg.len() as int,
        )
    }
}

/// The ports of the first `n` projects, project by project.
pub open spec fn used_ports(reg: Seq<Entry>, n: int) -> Seq<u16>
    decreases n,
{
    if n <= 0 {
        Seq::empty()
    } else {
        used_ports(reg, n - 1) + reg[n - 1].ports
    }
}

pub open spec fn entry_views(v: Seq<ProjectEntry>) -> Seq<Entry> {
    v.map_values(|e: ProjectEntry| e@)
}

/// The registry after the first `n` entries were registered, one after the
/// other.
pub open spec fn put_all(entries: Seq<Entry>, n: int) -> Seq<Entry>
    decreases n,
{
    if n <= 0 {
        Seq::empty()
    } else {
        put(put_all(entries, n - 1), entries[n - 1])
    }
}

pub open spec fn names_of(reg: Seq<Entry>) -> Seq<Seq<char>> {
    reg.map_values(|e: Entry| e.name)
}

/// The views of a list of conflicts.
pub open spec fn conflict_views(v: Seq<(u16, String)>) -> Seq<(u16, Seq<char>)> {
    v.map_values(|c: (u16, String)| (c.0, c.1@))
}

// ---------------------------------------------------------------------------
// Laws
// ---------------------------------------------------------------------------

pub proof fn lemma_index_of_project(reg: Seq<Entry>, name: Seq<char>, from: int)
    requires
        0 <= from <= reg.len(),
    ensures
        from <= index_of_project(reg, name, from) <= reg.len(),
        forall|k: int|
            from <= k < index_of_project(reg, name, from) ==> (#[trigger] reg[k]).name != name,
        index_of_project(reg, name, from) < reg.len() ==> reg[index_of_project(
            reg,
            name,
            from,
        )].name == name,
    decreases reg.len() - from,
{
    if from < reg.len() && reg[from].name != name {
        lemma_index_of_project(reg, name, from + 1);
    }
}

pub proof fn lemma_index_of_project_is(reg: Seq<Entry>, name: Seq<char>, from: int, i: int)
    requires
        0 <= from <= i <= reg.len(),
        forall|k: int| from <= k < i ==> (#[trigger] reg[k]).name != name,
        i < reg.len() ==> reg[i].name == name,
    ensures
        index_of_project(reg, name, from) == i,
    decreases i - from,
{
    if from < i {
        lemma_index_of_project_is(reg, name, from + 1, i);
    }
}

/// After a project is registered it is found with the entry that was given,
/// and every other project is found as before.
pub proof fn law_register_then_find(reg: Seq<Entry>, entry: Entry, name: Seq<char>)
    ensures
        find(put(reg, entry), name) == if name == entry.name {
            Some(entry)
        } else {
            find(reg, name)
        },
{
    let i = index_of_project(reg, entry.name, 0);
    let after = put(reg, entry);
    lemma_index_of_project(reg, entry.name, 0);
    lemma_index_of_project(reg, name, 0);
    if name == entry.name {
        lemma_index_of_project_is(after, name, 0, i);
    } else {
        let k = index_of_project(reg, name, 0);
        assert forall|m: int| 0 <= m < k implies (#[trigger] after[m]).name != name by {
            if m != i {
                assert(after[m] == reg[m]);
            }
        }
        if k < reg.len() {
            assert(after[k] == reg[k]);
            lemma_index_of_project_is(after, name, 0, k);
        } else {
            lemma_index_of_project_is(after, name, 0, after.len() as int);
        }
    }
}

/// Registering keeps the names distinct.
pub proof fn lemma_put_distinct(reg: Seq<Entry>, entry: Entry)
    requires
        distinct_projects(reg),
    ensures
        distinct_projects(put(reg, entry)),
{
    let i = index_of_project(reg, entry.name, 0);
    let after = put(reg, entry);
    lemma_index_of_project(reg, entry.name, 0);
    assert forall|a: int, b: int|
        #![trigger after[a], after[b]]
        0 <= a < b < after.len() implies after[a].name != after[b].name by {
        if i < reg.len() {
            if a == i {
                assert(after[b] == reg[b]);
                assert(reg[a].name != reg[b].name);
            } else if b == i {
                assert(after[a] == reg[a]);
                assert(reg[a].name != reg[b].name);
            } else {
                assert(reg[a].name != reg[b].name);
            }
        } else {
            if b == reg.len() {
                assert(after[a] == reg[a]);
            } else {
                assert(reg[a].name != reg[b].name);
            }
        }
    }
}

/// After a project is unregistered it is not found any more, and every
/// other project is found as before.
pub proof fn law_unregister_then_find(reg: Seq<Entry>, gone: Seq<char>, name: Seq<char>)
    requires
        distinct_projects(reg),
    ensures
        distinct_projects(without(reg, gone)),
        find(without(reg, gone), name) == if name == gone {
            None
        } else {
            find(reg, name)
        },
{
    let i = index_of_project(reg, gone, 0);
    let after = without(reg, gone);
    lemma_index_of_project(reg, gone, 0);
    lemma_index_of_project(reg, name, 0);
    if i < reg.len() {
        assert forall|a: int, b: int|
            #![trigger after[a], after[b]]
            0 <= a < b < after.len() implies after[a].name != after[b].name by {
            let a0 = if a < i {
                a
            } else {
                a + 1
            };
            let b0 = if b < i {
                b
            } else {
                b + 1
            };
            assert(after[a] == reg[a0] && after[b] == reg[b0]);
            assert(reg[a0].name != reg[b0].name);
        }
        if name == gone {
            assert forall|m: int| 0 <= m < after.len() implies (#[trigger] after[m]).name
                != name by {
                if m < i {
                    assert(after[m] == reg[m]);
                } else {
                    assert(after[m] == reg[m + 1]);
                    assert(reg[i].name != reg[m + 1].name);
                }
            }
            lemma_index_of_project_is(after, name, 0, after.len() as int);
        } else {
            let k = index_of_project(reg, name, 0);
            let k1 = if k < i {
                k
            } else {
                k - 1
            };
            assert(k != i);
            assert forall|m: int| 0 <= m < k1 implies (#[trigger] after[m]).name != name by {
                if m < i {
                    assert(after[m] == reg[m]);
                } else {
                    assert(after[m] == reg[m + 1]);
                }
            }
            if k < reg.len() {
                assert(after[k1] == reg[k]);
            }
            lemma_index_of_project_is(after, name, 0, k1);
        }
    }
}

/// What the conflicts of one port hold: the port with the name of each
/// project, among the first `n`, that is not `name` and holds the port.
pub proof fn lemma_port_owners(reg: Seq<Entry>, name: Seq<char>, port: u16, n: int)
    requires
        0 <= n <= reg.len(),
    ensures
        forall|c: (u16, Seq<char>)| #[trigger]
            port_owners(reg, name, port, n).contains(c) <==> c.0 == port && c.1 != name && exists|
                i: int,
            |
                0 <= i < n && (#[trigger] reg[i]).name == c.1 && reg[i].ports.contains(port),
    decreases n,
{
    if n > 0 {
        lemma_port_owners(reg, name, port, n - 1);
        let before = port_owners(reg, name, port, n - 1);
        let now = port_owners(reg, name, port, n);
        let e = reg[n - 1];
        assert forall|c: (u16, Seq<char>)| #[trigger]
            now.contains(c) <==> c.0 == port && c.1 != name && exists|i: int|
                0 <= i < n && (#[trigger] reg[i]).name == c.1 && reg[i].ports.contains(port) by {
            let held = e.name != name && e.ports.contains(port);
            if held {
                vstd::seq_lib::lemma_seq_contains_after_push(before, (port, e.name), c);
            }
            if now.contains(c) {
                if before.contains(c) {
                    let i = choose|i: int|
                        0 <= i < n - 1 && (#[trigger] reg[i]).name == c.1 && reg[i].ports.contains(
                            port,
                        );
                    assert(0 <= i < n && reg[i].name == c.1 && reg[i].ports.contains(port));
                } else {
                    assert(c == (port, e.name));
                    assert(reg[n - 1].name == c.1);
                }
            }
            if c.0 == port && c.1 != name && exists|i: int|
                0 <= i < n && (#[trigger] reg[i]).name == c.1 && reg[i].ports.contains(port) {
                let i = choose|i: int|
                    0 <= i < n && (#[trigger] reg[i]).name == c.1 && reg[i].ports.contains(port);
                if i < n - 1 {
                    assert(before.contains(c));
                } else {
                    assert(c == (port, e.name));
                }
            }
        }
    }
}

proof fn lemma_joined<A>(s: Seq<A>, t: Seq<A>, y: A)
    ensures
        (s + t).contains(y) <==> s.contains(y) || t.contains(y),
{
    let u = s + t;
    if u.contains(y) {
        let i = choose|i: int| 0 <= i < u.len() && u[i] == y;
        if i < s.len() {
            assert(s[i] == y);
        } else {
            assert(t[i - s.len()] == y);
        }
    }
    if s.contains(y) {
        let i = choose|i: int| 0 <= i < s.len() && s[i] == y;
        assert(u[i] == y);
    }
    if t.contains(y) {
        let i = choose|i: int| 0 <= i < t.len() && t[i] == y;
        assert(u[i + s.len()] == y);
    }
}

/// What a conflict report holds: the pair of a port and a project is
/// reported exactly if the port is among the candidates and the project,
/// which is not the one that asks, holds it.
pub proof fn law_conflicts(reg: Seq<Entry>, name: Seq<char>, ports: Seq<u16>, k: int)
    requires
        0 <= k <= ports.len(),
    ensures
        forall|c: (u16, Seq<char>)| #[trigger]
            conflicts(reg, name, ports, k).contains(c) <==> ports.subrange(0, k).contains(c.0)
                && c.1 != name && exists|i: int|
                0 <= i < reg.len() && (#[trigger] reg[i]).name == c.1 && reg[i].ports.contains(c.0),
    decreases k,
{
    if k > 0 {
        law_conflicts(reg, name, ports, k - 1);
        let port = ports[k - 1];
        let n = reg.len() as int;
        lemma_port_owners(reg, name, port, n);
        let before = conflicts(reg, name, ports, k - 1);
        let here = port_owners(reg, name, port, n);
        let front = ports.subrange(0, k - 1);
        let head = ports.subrange(0, k);
        assert(head =~= front.push(port));
        assert forall|c: (u16, Seq<char>)| #[trigger]
            conflicts(reg, name, ports, k).contains(c) <==> head.contains(c.0) && c.1 != name
                && exists|i: int|
                0 <= i < reg.len() && (#[trigger] reg[i]).name == c.1 && reg[i].ports.contains(
                    c.0,
                ) by {
            lemma_joined(before, here, c);
            vstd::seq_lib::lemma_seq_contains_after_push(front, port, c.0);
        }
    }
}

/// A project never conflicts with itself: no report names the project that
/// asks.
pub proof fn law_no_conflict_with_itself(reg: Seq<Entry>, name: Seq<char>, ports: Seq<u16>)
    ensures
        forall|c: (u16, Seq<char>)| #[trigger]
            conflicts(reg, name, ports, ports.len() as int).contains(c) ==> c.1 != name,
{
    law_conflicts(reg, name, ports, ports.len() as int);
}

// ---------------------------------------------------------------------------
// The registry
// ---------------------------------------------------------------------------

/// The registered projects, in the order in which their names were first
/// registered.
#[derive(Debug)]
pub struct PortRegistry {
    projects: Vec<ProjectEntry>,
}

impl View for PortRegistry {
    type V = Seq<Entry>;

    closed spec fn view(&self) -> Seq<Entry> {
        self.projects@.map_values(|e: ProjectEntry| e@)
    }
}

/// Whether `ports` holds `port`.
pub fn holds_port(ports: &Vec<u16>, port: u16) -> (b: bool)
    ensures
        b == ports@.contains(port),
{
    let mut i: usize = 0;
    while i < ports.len()
        invariant
            i <= ports.len(),
            forall|k: int| 0 <= k < i ==> ports@[k] != port,
        decreases ports.len() - i,
    {
        if ports[i] == port {
            return true;
        }
        i += 1;
    }
    false
}

impl PortRegistry {
    /// Every name is registered at most once. `new` yields such a registry,
    /// and registering and unregistering keep it so.
    pub open spec fn wf(&self) -> bool {
        distinct_projects(self@)
    }

    /// An empty registry.
    pub fn new() -> (registry: Self)
        ensures
            registry@ == Seq::<Entry>::empty(),
            registry.wf(),
    {
        let registry = PortRegistry { projects: Vec::new() };
        assert(registry@ =~= Seq::<Entry>::empty());
        registry
    }

    /// The registry that holds the given entries, registered one after the
    /// other. Without entries it is empty.
    pub fn load(entries: Vec<ProjectEntry>) -> (registry: Self)
        ensures
            registry@ == put_all(entry_views(entries@), entries@.len() as int),
            registry.wf(),
    {
        let ghost all = entry_views(entries@);
        let mut registry = PortRegistry::new();
        let mut rest = entries;
        let ghost mut done: int = 0;
        while rest.len() > 0
            invariant
                registry.wf(),
                0 <= done <= all.len(),
                entry_views(rest@) == all.subrange(done, all.len() as int),
                registry@ == put_all(all, done),
            decreases rest.len(),
        {
            let ghost before = entry_views(rest@);
            let entry = rest.remove(0);
            proof {
                assert(before[0] == entry@);
                assert(entry_views(rest@) =~= before.subrange(1, before.len() as int));
                assert(all[done] == entry@);
                assert(entry_views(rest@) =~= all.subrange(done + 1, all.len() as int));
                done = done + 1;
            }
            registry.register_project(entry);
        }
        proof {
            assert(entry_views(rest@).len() == 0);
            assert(done == all.len());
        }
        registry
    }

    /// The number of registered projects.
    pub fn len(&self) -> (n: usize)
        ensures
            n == self@.len(),
    {
        self.projects.len()
    }

    fn position(&self, name: &Vec<char>) -> (i: usize)
        ensures
            i == index_of_project(self@, name@, 0),
            i <= self@.len(),
    {
        let mut i: usize = 0;
        while i < self.projects.len()
            invariant
                i <= self.projects.len(),
                index_of_project(self@, name@, i as int) == index_of_project(self@, name@, 0),
            decreases self.projects.len() - i,
        {
            let entry_name = chars_of(self.projects[i].name.as_str());
            assert(self@[i as int].name == entry_name@);
            if same_text(&entry_name, name) {
                return i;
            }
            i += 1;
        }
        i
    }

    fn position_of_path(&self, path: &Vec<char>) -> (i: usize)
        ensures
            i == index_of_path(self@, path@, 0),
            i <= self@.len(),
    {
        let mut i: usize = 0;
        while i < self.projects.len()
            invariant
                i <= self.projects.len(),
                index_of_path(self@, path@, i as int) == index_of_path(self@, path@, 0),
            decreases self.projects.len() - i,
        {
            let entry_path = chars_of(self.projects[i].path.as_str());
            assert(self@[i as int].path == entry_path@);
            if same_text(&entry_path, path) {
                return i;
            }
            i += 1;
        }
        i
    }

    /// Registers a project, in the place of the project of the same name if
    /// there is one.
    pub fn register_project(&mut self, entry: ProjectEntry)
        ensures
            final(self)@ == put(old(self)@, entry@),
            old(self).wf() ==> final(self).wf(),
    {
        proof {
            if self.wf() {
                lemma_put_distinct(self@, entry@);
            }
        }
        let i = self.position(&chars_of(entry.name.as_str()));
        if i < self.projects.len() {
            self.projects.set(i, entry);
            assert(self@ =~= put(old(self)@, entry@));
        } else {
            self.projects.push(entry);
            assert(self@ =~= put(old(self)@, entry@));
        }
    }

    /// Unregisters the project called `project_name`; does nothing when no
    /// such project is registered.
    pub fn unregister_project(&mut self, project_name: &str)
        ensures
            final(self)@ == without(old(self)@, project_name@),
            old(self).wf() ==> final(self).wf(),
    {
        proof {
            if self.wf() {
                law_unregister_then_find(self@, project_name@, project_name@);
            }
        }
        let i = self.position(&chars_of(project_name));
        if i < self.projects.len() {
            self.projects.remove(i);
            assert(self@ =~= without(old(self)@, project_name@));
        }
    }

    /// Every pair of a candidate port and another project that holds it.
    pub fn check_port_conflicts(&self, project_name: &str, ports: &[u16]) -> (found: Vec<
        (u16, String),
    >)
        ensures
            conflict_views(found@) == conflicts(
                self@,
                project_name@,
                ports@,
                ports@.len() as int,
            ),
            forall|k: int| 0 <= k < found@.len() ==> (#[trigger] found@[k]).1@ != project_name@,
    {
        let own = chars_of(project_name);
        let mut found: Vec<(u16, String)> = Vec::new();
        let mut k: usize = 0;
        assert(conflict_views(found@) =~= Seq::<(u16, Seq<char>)>::empty());
        while k < ports.len()
            invariant
                k <= ports.len(),
                own@ == project_name@,
                conflict_views(found@) == conflicts(self@, project_name@, ports@, k as int),
            decreases ports.len() - k,
        {
            let port = ports[k];
            let ghost base = conflict_views(found@);
            let mut i: usize = 0;
            assert(base + port_owners(self@, project_name@, port, 0) =~= base);
            while i < self.projects.len()
                invariant
                    i <= self.projects.len(),
                    own@ == project_name@,
                    conflict_views(found@) == base + port_owners(
                        self@,
                        project_name@,
                        port,
                        i as int,
                    ),
                decreases self.projects.len() - i,
            {
                let entry = &self.projects[i];
                let entry_name = chars_of(entry.name.as_str());
                assert(self@[i as int] == entry@);
                if !same_text(&entry_name, &own) && holds_port(&entry.ports, port) {
                    let conflict = (port, entry.name.clone());
                    proof {
                        let before = port_owners(self@, project_name@, port, i as int);
                        assert(conflict_views(found@.push(conflict)) =~= conflict_views(
                            found@,
                        ).push((port, entry@.name)));
                        assert((base + before).push((port, entry@.name)) =~= base + before.push(
                            (port, entry@.name),
                        ));
                    }
                    found.push(conflict);
                }
                i += 1;
            }
            k += 1;
        }
        proof {
            law_no_conflict_with_itself(self@, project_name@, ports@);
            assert forall|k: int| 0 <= k < found@.len() implies (#[trigger] found@[k]).1@
                != project_name@ by {
                let c = conflict_views(found@)[k];
                assert(c == (found@[k].0, found@[k].1@));
                assert(conflict_views(found@).contains(c));
            }
        }
        found
    }

    /// The entry of project `project_name`.
    pub fn get_project(&self, project_name: &str) -> (r: Option<&ProjectEntry>)
        ensures
            match r {
                Some(e) => find(self@, project_name@) == Some(e@),
                None => find(self@, project_name@) is None,
            },
    {
        let i = self.position(&chars_of(project_name));
        if i < self.projects.len() {
            Some(&self.projects[i])
        } else {
            None
        }
    }

    /// The first project whose directory is `path`.
    pub fn get_project_by_path(&self, path: &str) -> (r: Option<&ProjectEntry>)
        ensures
            match r {
                Some(e) => find_by_path(self@, path@) == Some(e@),
                None => find_by_path(self@, path@) is None,
            },
    {
        let i = self.position_of_path(&chars_of(path));
        if i < self.projects.len() {
            Some(&self.projects[i])
        } else {
            None
        }
    }

    /// Every registered project, in ascending order of the names.
    pub fn list_projects(&self) -> (listed: Vec<&ProjectEntry>)
        ensures
            listed@.len() == self@.len(),
            exists|order: Seq<usize>|
                {
                    &&& is_arrangement(order, self@.len() as int)
                    &&& ascending(names_of(self@), order)
                    &&& forall|k: int|
                        0 <= k < listed@.len() ==> (#[trigger] listed@[k])@ == self@[order[k] as int]
                },
    {
        let mut names: Vec<Vec<char>> = Vec::new();
        let mut i: usize = 0;
        while i < self.projects.len()
            invariant
                i <= self.projects.len(),
                rows(names@) == names_of(self@).subrange(0, i as int),
            decreases self.projects.len() - i,
        {
            let name = chars_of(self.projects[i].name.as_str());
            assert(rows(names@.push(name)) =~= rows(names@).push(name@));
            assert(names_of(self@).subrange(0, i + 1) =~= names_of(self@).subrange(0, i as int).push(
                name@,
            ));
            names.push(name);
            i += 1;
        }
        assert(names_of(self@).subrange(0, self@.len() as int) =~= names_of(self@));
        let order = sorted_order(&names);
        let mut listed: Vec<&ProjectEntry> = Vec::new();
        let mut k: usize = 0;
        while k < order.len()
            invariant
                k <= order.len(),
                order@.len() == self.projects@.len(),
                is_arrangement(order@, self@.len() as int),
                listed@.len() == k,
                forall|j: int| 0 <= j < k ==> (#[trigger] listed@[j])@ == self@[order@[j] as int],
            decreases order.len() - k,
        {
            let at = order[k];
            listed.push(&self.projects[at]);
            k += 1;
        }
        listed
    }

    /// Whether a project called `project_name` is registered.
    pub fn is_registered(&self, project_name: &str) -> (b: bool)
        ensures
            b == find(self@, project_name@).is_some(),
    {
        let i = self.position(&chars_of(project_name));
        i < self.projects.len()
    }

    /// Whether a project with directory `path` is registered.
    pub fn is_registered_by_path(&self, path: &str) -> (b: bool)
        ensures
            b == find_by_path(self@, path@).is_some(),
    {
        let i = self.position_of_path(&chars_of(path));
        i < self.projects.len()
    }

    /// The ports of all registered projects, project by project.
    pub fn get_all_used_ports(&self) -> (ports: Vec<u16>)
        ensures
            ports@ == used_ports(self@, self@.len() as int),
    {
        let mut ports: Vec<u16> = Vec::new();
        let mut i: usize = 0;
        while i < self.projects.len()
            invariant
                i <= self.projects.len(),
                ports@ == used_ports(self@, i as int),
            decreases self.projects.len() - i,
        {
            let entry = &self.projects[i];
            assert(self@[i as int].ports == entry.ports@);
            let ghost before = ports@;
            let mut j: usize = 0;
            while j < entry.ports.len()
                invariant
                    j <= entry.ports.len(),
                    ports@ == before + entry.ports@.subrange(0, j as int),
                decreases entry.ports.len() - j,
            {
                ports.push(entry.ports[j]);
                assert(ports@ =~= before + entry.ports@.subrange(0, j + 1));
                j += 1;
            }
            assert(entry.ports@.subrange(0, entry.ports.len() as int) =~= entry.ports@);
            i += 1;
        }
        ports
    }
}

impl Default for PortRegistry {
    fn default() -> (registry: Self)
        ensures
            registry@ == Seq::<Entry>::empty(),
            registry.wf(),
    {
        PortRegistry::new()
    }
}

} // verus!

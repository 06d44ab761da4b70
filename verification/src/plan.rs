//! What a change to the hosts file will be, decided before anything is
//! written: which domains a project gets, which are refused and why, and
//! the text the file will have.
use crate::hosts::{
    covered, lookup, parse_hosts_file, parsed_sections, Section, SectionTable,
};
use crate::reconcile::{
    build_hosts_content, contains_text, drop_blank_tail, find_unmanaged_domains, is_managed_line,
    rebuilt_content, trim_blank_tail, unmanaged_domains,
};
use crate::text::{chars_of, content_of, extend_chars, join_lines, lines_of, string_of, texts};
use vstd::prelude::*;

verus! {

/// Why a desired domain is not given to the project.
pub ghost enum SkipCause {
    /// Another project's section holds it.
    OwnedBy(Seq<char>),
    /// A line outside every managed section binds it.
    Unmanaged,
}

/// Why a desired domain is not given to the project.
#[derive(Debug)]
pub enum SkipReason {
    /// Another project's section holds it.
    OwnedBy(String),
    /// A line outside every managed section binds it.
    Unmanaged,
}

impl View for SkipReason {
    type V = SkipCause;

    open spec fn view(&self) -> SkipCause {
        match self {
            SkipReason::OwnedBy(p) => SkipCause::OwnedBy(p@),
            SkipReason::Unmanaged => SkipCause::Unmanaged,
        }
    }
}

/// The reason in words.
pub open spec fn cause_text(cause: SkipCause) -> Seq<char> {
    match cause {
        SkipCause::OwnedBy(p) => "owned by project "@ + p,
        SkipCause::Unmanaged => "unmanaged entry exists"@,
    }
}

impl SkipReason {
    /// The reason in words.
    pub fn message(&self) -> (text: String)
        ensures
            text@ == cause_text(self@),
    {
        match self {
            SkipReason::OwnedBy(p) => {
                let mut chars = chars_of("owned by project ");
                extend_chars(&mut chars, &chars_of(p.as_str()));
                string_of(&chars)
            },
            SkipReason::Unmanaged => "unmanaged entry exists".to_owned(),
        }
    }
}

/// A desired domain that was refused, with the reason.
#[derive(Debug)]
pub struct SkippedDomain {
    pub domain: String,
    pub reason: SkipReason,
}

impl View for SkippedDomain {
    type V = (Seq<char>, SkipCause);

    open spec fn view(&self) -> (Seq<char>, SkipCause) {
        (self.domain@, self.reason@)
    }
}

pub open spec fn skips(v: Seq<SkippedDomain>) -> Seq<(Seq<char>, SkipCause)> {
    v.map_values(|s: SkippedDomain| s@)
}

/// Index of the first section at or after `from` that belongs to another
/// project than `name` and holds `domain`, or `table.len()`.
pub open spec fn owner_index(table: Seq<Section>, name: Seq<char>, domain: Seq<char>, from: int) -> int
    decreases table.len() - from,
{
    if 0 <= from < table.len() && !(table[from].name != name && table[from].domains.contains(
        domain,
    )) {
        owner_index(table, name, domain, from + 1)
    } else {
        from
    }
}

/// The first other project whose section holds `domain`.
pub open spec fn owner_of(table: Seq<Section>, name: Seq<char>, domain: Seq<char>) -> Option<
    Seq<char>,
> {
    let i = owner_index(table, name, domain, 0);
    if i < table.len() {
        Some(table[i].name)
    } else {
        None
    }
}

/// Why project `name` cannot have `domain`, if it cannot: a domain in
/// another project's section is owned by that project; failing that, a domain
/// bound on an unmanaged line is left alone.
pub open spec fn verdict(
    lines: Seq<Seq<char>>,
    table: Seq<Section>,
    name: Seq<char>,
    domain: Seq<char>,
) -> Option<SkipCause> {
    match owner_of(table, name, domain) {
        Some(owner) => Some(SkipCause::OwnedBy(owner)),
        None => if unmanaged_domains(lines, table).contains(domain) {
            Some(SkipCause::Unmanaged)
        } else {
            None
        },
    }
}

/// The desired domains parted into those accepted and those skipped.
pub ghost struct Triage {
    pub accepted: Seq<Seq<char>>,
    pub skipped: Seq<(Seq<char>, SkipCause)>,
}

/// The first `n` desired domains parted: each domain counts once, at its
/// first occurrence, and goes to the skipped ones if there is a verdict
/// against it, to the accepted ones otherwise.
pub open spec fn triage(
    lines: Seq<Seq<char>>,
    table: Seq<Section>,
    name: Seq<char>,
    desired: Seq<Seq<char>>,
    n: int,
) -> Triage
    decreases n,
{
    if n <= 0 {
        Triage { accepted: Seq::empty(), skipped: Seq::empty() }
    } else {
        let before = triage(lines, table, name, desired, n - 1);
        let d = desired[n - 1];
        if desired.subrange(0, n - 1).contains(d) {
            before
        } else {
            match verdict(lines, table, name, d) {
                Some(cause) => Triage {
                    accepted: before.accepted,
                    skipped: before.skipped.push((d, cause)),
                },
                None => Triage { accepted: before.accepted.push(d), skipped: before.skipped },
            }
        }
    }
}

/// What reconciling a project does.
pub ghost struct Plan {
    /// The domains in the project's section once the plan is carried out.
    pub applied: Seq<Seq<char>>,
    /// The desired domains that were refused.
    pub skipped: Seq<(Seq<char>, SkipCause)>,
    /// Whether the file is to be written.
    pub changed: bool,
    /// The domains in the project's section as found.
    pub previous: Option<Seq<Seq<char>>>,
    /// The text of the file once the plan is carried out.
    pub content: Seq<char>,
}

/// The plan for giving project `name` the domains `desired` in a hosts file
/// with text `content`.
///
/// If the project has a section whose domains are, as a set, the desired
/// ones, nothing changes. Otherwise the desired domains are parted; if the
/// project has no section and nothing is accepted, nothing changes either;
/// in every other case the project's section is replaced by one with the
/// accepted domains (by none, if nothing is accepted).
pub open spec fn planned(content: Seq<char>, name: Seq<char>, desired: Seq<Seq<char>>) -> Plan {
    let lines = lines_of(content);
    let table = parsed_sections(lines);
    match lookup(table, name) {
        Some(s) => if s.domains.to_set() == desired.to_set() {
            Plan {
                applied: s.domains,
                skipped: Seq::empty(),
                changed: false,
                previous: Some(s.domains),
                content,
            }
        } else {
            let parted = triage(lines, table, name, desired, desired.len() as int);
            Plan {
                applied: parted.accepted,
                skipped: parted.skipped,
                changed: true,
                previous: Some(s.domains),
                content: rebuilt_content(lines, table, name, Some(parted.accepted)),
            }
        },
        None => {
            let parted = triage(lines, table, name, desired, desired.len() as int);
            if parted.accepted.len() == 0 {
                Plan {
                    applied: Seq::empty(),
                    skipped: parted.skipped,
                    changed: false,
                    previous: None,
                    content,
                }
            } else {
                Plan {
                    applied: parted.accepted,
                    skipped: parted.skipped,
                    changed: true,
                    previous: None,
                    content: rebuilt_content(lines, table, name, Some(parted.accepted)),
                }
            }
        },
    }
}

/// The lines before `n` that lie outside every managed section.
pub open spec fn uncovered_lines(lines: Seq<Seq<char>>, table: Seq<Section>, n: int) -> Seq<
    Seq<char>,
>
    decreases n,
{
    if n <= 0 {
        Seq::empty()
    } else {
        let before = uncovered_lines(lines, table, n - 1);
        if covered(table, n - 1) {
            before
        } else {
            before.push(lines[n - 1])
        }
    }
}

/// What removing every managed section does.
pub ghost struct Cleanup {
    /// The sections to remove.
    pub removed: Seq<Section>,
    /// Whether the file is to be written.
    pub changed: bool,
    /// The text of the file once the sections are removed.
    pub content: Seq<char>,
}

/// The plan for removing every managed section from a hosts file with text
/// `content`: the lines outside the sections stay, without the blank lines at
/// the end. A file without sections is left as it is.
pub open spec fn cleaned(content: Seq<char>) -> Cleanup {
    let lines = lines_of(content);
    let table = parsed_sections(lines);
    if table.len() == 0 {
        Cleanup { removed: table, changed: false, content }
    } else {
        Cleanup {
            removed: table,
            changed: true,
            content: content_of(
                drop_blank_tail(uncovered_lines(lines, table, lines.len() as int)),
            ),
        }
    }
}

// ---------------------------------------------------------------------------

/// The outcome of planning a reconciliation, for the caller to show, to
/// confirm and to write.
#[derive(Debug)]
pub struct DomainPlan {
    /// The domains in the project's section once the plan is carried out.
    pub applied: Vec<String>,
    /// The desired domains that were refused.
    pub skipped: Vec<SkippedDomain>,
    /// Whether the file is to be written.
    pub changed: bool,
    /// The domains in the project's section as found.
    pub previous: Option<Vec<String>>,
    /// The text of the file once the plan is carried out.
    pub new_content: String,
}

impl View for DomainPlan {
    type V = Plan;

    open spec fn view(&self) -> Plan {
        Plan {
            applied: texts(self.applied@),
            skipped: skips(self.skipped@),
            changed: self.changed,
            previous: match self.previous {
                Some(p) => Some(texts(p@)),
                None => None,
            },
            content: self.new_content@,
        }
    }
}

/// The outcome of planning the removal of every managed section.
#[derive(Debug)]
pub struct CleanupPlan {
    /// The sections to remove.
    pub removed: SectionTable,
    /// Whether the file is to be written.
    pub changed: bool,
    /// The text of the file once the sections are removed.
    pub new_content: String,
}

impl View for CleanupPlan {
    type V = Cleanup;

    open spec fn view(&self) -> Cleanup {
        Cleanup { removed: self.removed@, changed: self.changed, content: self.new_content@ }
    }
}

/// A copy of a list of strings.
pub fn copy_texts(list: &Vec<String>) -> (copy: Vec<String>)
    ensures
        texts(copy@) == texts(list@),
{
    let mut copy: Vec<String> = Vec::new();
    let mut i: usize = 0;
    while i < list.len()
        invariant
            i <= list.len(),
            texts(copy@) == texts(list@).subrange(0, i as int),
        decreases list.len() - i,
    {
        let item = list[i].clone();
        assert(item@ == texts(list@)[i as int]);
        assert(texts(copy@.push(item)) =~= texts(copy@).push(item@));
        assert(texts(list@).subrange(0, i + 1) =~= texts(list@).subrange(0, i as int).push(item@));
        copy.push(item);
        i += 1;
    }
    assert(texts(list@).subrange(0, list.len() as int) =~= texts(list@));
    copy
}

/// Whether every text of `a` is among those of `b`.
fn all_among(a: &Vec<String>, b: &Vec<String>) -> (r: bool)
    ensures
        r == forall|i: int| 0 <= i < a@.len() ==> texts(b@).contains(#[trigger] texts(a@)[i]),
{
    let mut i: usize = 0;
    while i < a.len()
        invariant
            i <= a.len(),
            forall|k: int| 0 <= k < i ==> texts(b@).contains(#[trigger] texts(a@)[k]),
        decreases a.len() - i,
    {
        let item = chars_of(a[i].as_str());
        assert(texts(a@)[i as int] == item@);
        if !contains_text(b, &item) {
            return false;
        }
        i += 1;
    }
    true
}

/// Whether two lists hold the same texts, whatever the order and however
/// often.
pub fn same_members(a: &Vec<String>, b: &Vec<String>) -> (r: bool)
    ensures
        r == (texts(a@).to_set() == texts(b@).to_set()),
{
    let ghost x = texts(a@);
    let ghost y = texts(b@);
    let forth = all_among(a, b);
    let back = all_among(b, a);
    proof {
        if forth && back {
            assert forall|t: Seq<char>| x.to_set().contains(t) == y.to_set().contains(t) by {
                if x.contains(t) {
                    let i = choose|i: int| 0 <= i < x.len() && x[i] == t;
                    assert(y.contains(x[i]));
                }
                if y.contains(t) {
                    let i = choose|i: int| 0 <= i < y.len() && y[i] == t;
                    assert(x.contains(y[i]));
                }
            }
            assert(x.to_set() =~= y.to_set());
        } else if !forth {
            let i = choose|i: int| 0 <= i < x.len() && !y.contains(#[trigger] x[i]);
            assert(x.to_set().contains(x[i]));
            assert(!y.to_set().contains(x[i]));
        } else {
            let i = choose|i: int| 0 <= i < y.len() && !x.contains(#[trigger] y[i]);
            assert(y.to_set().contains(y[i]));
            assert(!x.to_set().contains(y[i]));
        }
    }
    forth && back
}

/// The first other project than `name` whose section holds `domain`.
pub fn find_owner(sections: &SectionTable, name: &str, domain: &Vec<char>) -> (owner: Option<
    String,
>)
    ensures
        match owner {
            Some(o) => owner_of(sections@, name@, domain@) == Some(o@),
            None => owner_of(sections@, name@, domain@) is None,
        },
{
    let own = chars_of(name);
    let mut i: usize = 0;
    while i < sections.len()
        invariant
            i <= sections@.len(),
            own@ == name@,
            owner_index(sections@, name@, domain@, i as int) == owner_index(
                sections@,
                name@,
                domain@,
                0,
            ),
        decreases sections@.len() - i,
    {
        let s = sections.section(i);
        let other = chars_of(s.project_name.as_str());
        if !crate::text::same_text(&other, &own) && contains_text(&s.domains, domain) {
            return Some(s.project_name.clone());
        }
        i += 1;
    }
    None
}

/// Whether `item` is among the first `k` texts of `list`.
fn appears_before(list: &Vec<String>, k: usize, item: &Vec<char>) -> (b: bool)
    requires
        k <= list.len(),
    ensures
        b == texts(list@).subrange(0, k as int).contains(item@),
{
    let ghost head = texts(list@).subrange(0, k as int);
    let mut i: usize = 0;
    while i < k
        invariant
            i <= k <= list.len(),
            head == texts(list@).subrange(0, k as int),
            forall|j: int| 0 <= j < i ==> head[j] != item@,
        decreases k - i,
    {
        let entry = chars_of(list[i].as_str());
        assert(head[i as int] == entry@);
        if crate::text::same_text(&entry, item) {
            return true;
        }
        i += 1;
    }
    false
}

/// Parts the desired domains into those accepted and those skipped.
pub fn part_domains(
    lines: &Vec<String>,
    sections: &SectionTable,
    project_name: &str,
    desired: &Vec<String>,
) -> (r: (Vec<String>, Vec<SkippedDomain>))
    ensures
        (Triage { accepted: texts(r.0@), skipped: skips(r.1@) }) == triage(
            texts(lines@),
            sections@,
            project_name@,
            texts(desired@),
            desired@.len() as int,
        ),
{
    let unmanaged = find_unmanaged_domains(lines, sections);
    let mut accepted: Vec<String> = Vec::new();
    let mut skipped: Vec<SkippedDomain> = Vec::new();
    let ghost all = texts(lines@);
    let ghost wanted = texts(desired@);
    let mut k: usize = 0;
    assert(texts(accepted@) =~= Seq::<Seq<char>>::empty());
    assert(skips(skipped@) =~= Seq::<(Seq<char>, SkipCause)>::empty());
    while k < desired.len()
        invariant
            k <= desired.len(),
            all == texts(lines@),
            wanted == texts(desired@),
            texts(unmanaged@).to_set() == unmanaged_domains(all, sections@),
            (Triage { accepted: texts(accepted@), skipped: skips(skipped@) }) == triage(
                all,
                sections@,
                project_name@,
                wanted,
                k as int,
            ),
        decreases desired.len() - k,
    {
        let d = chars_of(desired[k].as_str());
        assert(wanted[k as int] == d@);
        if !appears_before(desired, k, &d) {
            match find_owner(sections, project_name, &d) {
                Some(owner) => {
                    let skip = SkippedDomain {
                        domain: desired[k].clone(),
                        reason: SkipReason::OwnedBy(owner),
                    };
                    assert(skips(skipped@.push(skip)) =~= skips(skipped@).push(skip@));
                    skipped.push(skip);
                },
                None => {
                    let taken = contains_text(&unmanaged, &d);
                    assert(taken == unmanaged_domains(all, sections@).contains(d@)) by {
                        assert(texts(unmanaged@).to_set().contains(d@) == texts(
                            unmanaged@,
                        ).contains(d@));
                    }
                    if taken {
                        let skip = SkippedDomain {
                            domain: desired[k].clone(),
                            reason: SkipReason::Unmanaged,
                        };
                        assert(skips(skipped@.push(skip)) =~= skips(skipped@).push(skip@));
                        skipped.push(skip);
                    } else {
                        let domain = desired[k].clone();
                        assert(texts(accepted@.push(domain)) =~= texts(accepted@).push(domain@));
                        accepted.push(domain);
                    }
                },
            }
        }
        k += 1;
    }
    (accepted, skipped)
}

/// Plans the reconciliation of project `project_name` to the desired
/// `domains`, given the text of the hosts file. What is to be written, if
/// anything, is in the plan.
pub fn add_project_domains(content: &str, project_name: &str, domains: &Vec<String>) -> (plan:
    DomainPlan)
    ensures
        plan@ == planned(content@, project_name@, texts(domains@)),
{
    let (lines, sections) = parse_hosts_file(content);
    let mut previous: Option<Vec<String>> = None;
    match sections.get(project_name) {
        Some(s) => {
            if same_members(&s.domains, domains) {
                let plan = DomainPlan {
                    applied: copy_texts(&s.domains),
                    skipped: Vec::new(),
                    changed: false,
                    previous: Some(copy_texts(&s.domains)),
                    new_content: content.to_owned(),
                };
                assert(skips(plan.skipped@) =~= Seq::<(Seq<char>, SkipCause)>::empty());
                return plan;
            }
            previous = Some(copy_texts(&s.domains));
        },
        None => {},
    }
    let (accepted, skipped) = part_domains(&lines, &sections, project_name, domains);
    if previous.is_none() && accepted.len() == 0 {
        let plan = DomainPlan {
            applied: accepted,
            skipped,
            changed: false,
            previous: None,
            new_content: content.to_owned(),
        };
        assert(texts(plan.applied@) =~= Seq::<Seq<char>>::empty());
        return plan;
    }
    let new_content = build_hosts_content(&lines, &sections, project_name, Some(&accepted));
    DomainPlan { applied: accepted, skipped, changed: true, previous, new_content }
}

/// Plans the removal of the section of project `project_name`: the
/// reconciliation to no domains at all. Without a section nothing changes;
/// a section that holds no domain is what was asked for already, and stays
/// as it is.
pub fn remove_project_domains(content: &str, project_name: &str) -> (plan: DomainPlan)
    ensures
        plan@ == planned(content@, project_name@, Seq::empty()),
{
    let none: Vec<String> = Vec::new();
    assert(texts(none@) =~= Seq::<Seq<char>>::empty());
    add_project_domains(content, project_name, &none)
}

/// Plans the removal of every managed section in one pass.
pub fn cleanup_all_domains(content: &str) -> (plan: CleanupPlan)
    ensures
        plan@ == cleaned(content@),
{
    let (lines, sections) = parse_hosts_file(content);
    if sections.is_empty() {
        return CleanupPlan { removed: sections, changed: false, new_content: content.to_owned() };
    }
    let ghost all = texts(lines@);
    let mut kept: Vec<String> = Vec::new();
    let mut idx: usize = 0;
    assert(texts(kept@) =~= Seq::<Seq<char>>::empty());
    while idx < lines.len()
        invariant
            idx <= lines.len(),
            all == texts(lines@),
            texts(kept@) == uncovered_lines(all, sections@, idx as int),
        decreases lines.len() - idx,
    {
        if !is_managed_line(&sections, idx) {
            let line = lines[idx].clone();
            assert(line@ == all[idx as int]);
            assert(texts(kept@.push(line)) =~= texts(kept@).push(line@));
            kept.push(line);
        }
        idx += 1;
    }
    trim_blank_tail(&mut kept);
    let new_content = join_lines(&kept);
    CleanupPlan { removed: sections, changed: true, new_content }
}

/// A project with the domains of its section.
#[derive(Debug)]
pub struct ManagedProject {
    pub name: String,
    pub domains: Vec<String>,
}

pub open spec fn section_names(table: Seq<Section>) -> Seq<Seq<char>> {
    table.map_values(|s: Section| s.name)
}

/// The projects that have a section in the hosts file, in ascending order
/// of their names, each with its domains.
pub fn list_managed_domains(content: &str) -> (listed: Vec<ManagedProject>)
    ensures
        listed@.len() == parsed_sections(lines_of(content@)).len(),
        exists|order: Seq<usize>|
            {
                &&& crate::order::is_arrangement(order, listed@.len() as int)
                &&& crate::order::ascending(
                    section_names(parsed_sections(lines_of(content@))),
                    order,
                )
                &&& forall|k: int|
                    0 <= k < listed@.len() ==> {
                        let s = parsed_sections(lines_of(content@))[order[k] as int];
                        (#[trigger] listed@[k]).name@ == s.name && texts(listed@[k].domains@)
                            == s.domains
                    }
            },
{
    let (_, sections) = parse_hosts_file(content);
    let ghost table = sections@;
    let mut names: Vec<Vec<char>> = Vec::new();
    let mut i: usize = 0;
    while i < sections.len()
        invariant
            i <= sections@.len(),
            table == sections@,
            crate::text::rows(names@) == section_names(table).subrange(0, i as int),
        decreases sections@.len() - i,
    {
        let name = chars_of(sections.section(i).project_name.as_str());
        assert(crate::text::rows(names@.push(name)) =~= crate::text::rows(names@).push(name@));
        assert(section_names(table).subrange(0, i + 1) =~= section_names(table).subrange(
            0,
            i as int,
        ).push(name@));
        names.push(name);
        i += 1;
    }
    assert(section_names(table).subrange(0, table.len() as int) =~= section_names(table));
    let order = crate::order::sorted_order(&names);
    let mut listed: Vec<ManagedProject> = Vec::new();
    let mut k: usize = 0;
    while k < order.len()
        invariant
            k <= order.len(),
            table == sections@,
            order@.len() == table.len(),
            crate::order::is_arrangement(order@, table.len() as int),
            listed@.len() == k,
            forall|j: int|
                0 <= j < k ==> (#[trigger] listed@[j]).name@ == table[order@[j] as int].name
                    && texts(listed@[j].domains@) == table[order@[j] as int].domains,
        decreases order.len() - k,
    {
        let s = sections.section(order[k]);
        listed.push(ManagedProject { name: s.project_name.clone(), domains: copy_texts(&s.domains) });
        k += 1;
    }
    listed
}

} // verus!

//! The shared hosts file as a line-oriented document.
//!
//! The file holds zero or more managed sections, each owned by one project
//! and delimited by a start and an end marker line, between lines that this
//! crate never alters. This module gives the model of such a document and
//! reads the sections out of its lines.
use crate::text::{
    chars_of, has_prefix, lines_of, same_text, second_token, second_word, slice_of, split_lines,
    string_of, texts, trim, trimmed,
};
use vstd::prelude::*;

verus! {

/// What a line starts with when it opens a managed section.
pub open spec fn section_start_prefix() -> Seq<char> {
    "# === oh-my-dockers start ==="@
}

/// What a line starts with when it closes a managed section.
pub open spec fn section_end_prefix() -> Seq<char> {
    "# === oh-my-dockers end ==="@
}

/// What the comment line inside a managed section starts with.
pub open spec fn marker_prefix() -> Seq<char> {
    "# oh-my-dockers"@
}

/// The loopback address that every managed entry is bound to.
pub open spec fn loopback() -> Seq<char> {
    "127.0.0.1"@
}

/// What follows `prefix` on a line, trimmed, when the trimmed line starts
/// with `prefix`.
pub open spec fn tag_after(line: Seq<char>, prefix: Seq<char>) -> Option<Seq<char>> {
    let t = trimmed(line);
    if prefix.is_prefix_of(t) {
        Some(trimmed(t.subrange(prefix.len() as int, t.len() as int)))
    } else {
        None
    }
}

/// The project name on a start marker line.
pub open spec fn start_tag(line: Seq<char>) -> Option<Seq<char>> {
    tag_after(line, section_start_prefix())
}

/// The project name on an end marker line (empty when the marker carries no
/// name).
pub open spec fn end_tag(line: Seq<char>) -> Option<Seq<char>> {
    tag_after(line, section_end_prefix())
}

/// The domain that a line binds to the loopback address: its second token,
/// when the trimmed line starts with the loopback address.
pub open spec fn loopback_domain(line: Seq<char>) -> Option<Seq<char>> {
    let t = trimmed(line);
    if loopback().is_prefix_of(t) {
        second_word(t)
    } else {
        None
    }
}

/// A managed section: the project that owns it, its domains in file order,
/// and the half-open range of lines `[start, end)` that it covers.
pub ghost struct Section {
    pub name: Seq<char>,
    pub domains: Seq<Seq<char>>,
    pub start: int,
    pub end: int,
}

/// Index of the first section at or after `from` that belongs to `name`, or
/// `table.len()` when there is none.
pub open spec fn index_of_name(table: Seq<Section>, name: Seq<char>, from: int) -> int
    decreases table.len() - from,
{
    if 0 <= from < table.len() && table[from].name != name {
        index_of_name(table, name, from + 1)
    } else {
        from
    }
}

/// The section of project `name`, if the table has one.
pub open spec fn lookup(table: Seq<Section>, name: Seq<char>) -> Option<Section> {
    let i = index_of_name(table, name, 0);
    if i < table.len() {
        Some(table[i])
    } else {
        None
    }
}

/// The table with `section` in the place of the section of the same project,
/// or at the end when that project had none.
pub open spec fn upsert(table: Seq<Section>, section: Section) -> Seq<Section> {
    let i = index_of_name(table, section.name, 0);
    if i < table.len() {
        table.update(i, section)
    } else {
        table.push(section)
    }
}

/// Whether line `idx` lies inside some section of the table.
pub open spec fn covered(table: Seq<Section>, idx: int) -> bool {
    exists|i: int| 0 <= i < table.len() && (#[trigger] table[i]).start <= idx < table[i].end
}

/// No two sections belong to the same project.
pub open spec fn distinct_names(table: Seq<Section>) -> bool {
    forall|i: int, j: int|
        0 <= i < j < table.len() ==> (#[trigger] table[i]).name != (#[trigger] table[j]).name
}

/// The state of the forward scan over the lines: the section that is open
/// (project and the line of its start marker), the domains collected for it,
/// and the sections committed so far.
pub ghost struct Scan {
    pub open: Option<(Seq<char>, int)>,
    pub domains: Seq<Seq<char>>,
    pub table: Seq<Section>,
}

/// What one line does to the scan.
///
/// * A start marker with a name opens a section for that name, whatever was
///   open before.
/// * An end marker closes the open section if it carries the same name or
///   none; any other end marker is ignored.
/// * A loopback line inside an open section adds its domain.
pub open spec fn scan_step(st: Scan, idx: int, line: Seq<char>) -> Scan {
    if start_tag(line) is Some {
        let name = start_tag(line)->0;
        if name.len() > 0 {
            Scan { open: Some((name, idx)), domains: Seq::empty(), table: st.table }
        } else {
            st
        }
    } else if end_tag(line) is Some {
        let tag = end_tag(line)->0;
        match st.open {
            Some((name, start)) => if tag.len() == 0 || tag == name {
                Scan {
                    open: None,
                    domains: Seq::empty(),
                    table: upsert(
                        st.table,
                        Section { name, domains: st.domains, start, end: idx + 1 },
                    ),
                }
            } else {
                st
            },
            None => st,
        }
    } else if st.open is Some && loopback_domain(line) is Some {
        Scan { open: st.open, domains: st.domains.push(loopback_domain(line)->0), table: st.table }
    } else {
        st
    }
}

/// The scan after the first `n` lines.
pub open spec fn scan(lines: Seq<Seq<char>>, n: int) -> Scan
    decreases n,
{
    if n <= 0 {
        Scan { open: None, domains: Seq::empty(), table: Seq::empty() }
    } else {
        scan_step(scan(lines, n - 1), n - 1, lines[n - 1])
    }
}

/// The sections once the last line is read: a section that is still open is
/// committed up to the end of the file.
pub open spec fn finish(st: Scan, line_count: int) -> Seq<Section> {
    match st.open {
        Some((name, start)) => upsert(
            st.table,
            Section { name, domains: st.domains, start, end: line_count },
        ),
        None => st.table,
    }
}

/// The managed sections of a document.
pub open spec fn parsed_sections(lines: Seq<Seq<char>>) -> Seq<Section> {
    finish(scan(lines, lines.len() as int), lines.len() as int)
}

/// The section table of a document of `line_count` lines is well formed:
/// every project has at most one section and a name that is not empty, every
/// section covers at least its start marker and lies within the document,
/// and no two sections overlap.
pub open spec fn well_formed(table: Seq<Section>, line_count: int) -> bool {
    &&& distinct_names(table)
    &&& forall|i: int|
        0 <= i < table.len() ==> {
            &&& (#[trigger] table[i]).name.len() > 0
            &&& 0 <= table[i].start < table[i].end <= line_count
        }
    &&& forall|i: int, j: int|
        0 <= i < table.len() && 0 <= j < table.len() && i != j ==> {
            ||| (#[trigger] table[i]).end <= (#[trigger] table[j]).start
            ||| table[j].end <= table[i].start
        }
}

/// Every section begins at a start marker that carries its project's name.
pub open spec fn starts_at_markers(table: Seq<Section>, lines: Seq<Seq<char>>) -> bool {
    forall|i: int|
        0 <= i < table.len() ==> 0 <= (#[trigger] table[i]).start < lines.len() && start_tag(
            lines[table[i].start],
        ) == Some(table[i].name)
}

// ---------------------------------------------------------------------------
// Facts about tables
// ---------------------------------------------------------------------------

pub proof fn lemma_index_of_name(table: Seq<Section>, name: Seq<char>, from: int)
    requires
        0 <= from <= table.len(),
    ensures
        from <= index_of_name(table, name, from) <= table.len(),
        forall|k: int| from <= k < index_of_name(table, name, from) ==> (#[trigger] table[k]).name != name,
        index_of_name(table, name, from) < table.len() ==> table[index_of_name(
            table,
            name,
            from,
        )].name == name,
    decreases table.len() - from,
{
    if from < table.len() && table[from].name != name {
        lemma_index_of_name(table, name, from + 1);
    }
}

/// The first section named `name` is at `i` when no earlier one has that name.
pub proof fn lemma_index_of_name_is(table: Seq<Section>, name: Seq<char>, from: int, i: int)
    requires
        0 <= from <= i <= table.len(),
        forall|k: int| from <= k < i ==> (#[trigger] table[k]).name != name,
        i < table.len() ==> table[i].name == name,
    ensures
        index_of_name(table, name, from) == i,
    decreases i - from,
{
    if from < i {
        lemma_index_of_name_is(table, name, from + 1, i);
    }
}

/// After an upsert the project has exactly the section that was put in, and
/// every other project has what it had.
pub proof fn lemma_upsert_lookup(table: Seq<Section>, section: Section, name: Seq<char>)
    ensures
        lookup(upsert(table, section), name) == if name == section.name {
            Some(section)
        } else {
            lookup(table, name)
        },
{
    let i = index_of_name(table, section.name, 0);
    let after = upsert(table, section);
    lemma_index_of_name(table, section.name, 0);
    lemma_index_of_name(table, name, 0);
    if name == section.name {
        lemma_index_of_name_is(after, name, 0, i);
    } else {
        let k = index_of_name(table, name, 0);
        assert forall|m: int| 0 <= m < k implies (#[trigger] after[m]).name != name by {
            if m != i {
                assert(after[m] == table[m]);
            }
        }
        if k < table.len() {
            assert(k != i);
            assert(after[k] == table[k]);
            lemma_index_of_name_is(after, name, 0, k);
        } else {
            lemma_index_of_name_is(after, name, 0, after.len() as int);
        }
    }
}

/// An upsert keeps the names distinct.
pub proof fn lemma_upsert_distinct(table: Seq<Section>, section: Section)
    requires
        distinct_names(table),
    ensures
        distinct_names(upsert(table, section)),
{
    let i = index_of_name(table, section.name, 0);
    let after = upsert(table, section);
    lemma_index_of_name(table, section.name, 0);
    assert forall|a: int, b: int| 0 <= a < b < after.len() implies (#[trigger] after[a]).name != (
    #[trigger] after[b]).name by {
        if i < table.len() {
            assert(table[i].name == section.name);
            if a == i {
                assert(after[b] == table[b]);
                assert(table[a].name != table[b].name);
            } else if b == i {
                assert(after[a] == table[a]);
                assert(table[a].name != table[b].name);
            } else {
                assert(table[a].name != table[b].name);
            }
        } else {
            if b == table.len() {
                assert(after[a] == table[a]);
                assert(table[a].name != section.name);
            } else {
                assert(table[a].name != table[b].name);
            }
        }
    }
}

/// What holds of the scan after `n` lines: the committed sections are well
/// formed and end before the open section starts.
pub open spec fn scan_invariant(st: Scan, lines: Seq<Seq<char>>, n: int) -> bool {
    &&& well_formed(st.table, n)
    &&& starts_at_markers(st.table, lines)
    &&& match st.open {
        Some((name, start)) => {
            &&& name.len() > 0
            &&& 0 <= start < n
            &&& start_tag(lines[start]) == Some(name)
            &&& forall|i: int| 0 <= i < st.table.len() ==> (#[trigger] st.table[i]).end <= start
        },
        None => true,
    }
}

/// Putting a section that lies behind all others into a well-formed table
/// leaves it well formed.
pub proof fn lemma_upsert_well_formed(
    table: Seq<Section>,
    section: Section,
    lines: Seq<Seq<char>>,
    n: int,
    m: int,
)
    requires
        well_formed(table, n),
        starts_at_markers(table, lines),
        n <= m,
        section.name.len() > 0,
        0 <= section.start < section.end <= m,
        section.start < lines.len(),
        start_tag(lines[section.start]) == Some(section.name),
        forall|i: int| 0 <= i < table.len() ==> (#[trigger] table[i]).end <= section.start,
    ensures
        well_formed(upsert(table, section), m),
        starts_at_markers(upsert(table, section), lines),
{
    let i = index_of_name(table, section.name, 0);
    let after = upsert(table, section);
    lemma_index_of_name(table, section.name, 0);
    lemma_upsert_distinct(table, section);
    assert forall|a: int| 0 <= a < after.len() implies {
        &&& (#[trigger] after[a]).name.len() > 0
        &&& 0 <= after[a].start < after[a].end <= m
    } by {
        if a < table.len() && a != i {
            assert(after[a] == table[a]);
        }
    }
    assert forall|a: int, b: int|
        0 <= a < after.len() && 0 <= b < after.len() && a != b implies {
        ||| (#[trigger] after[a]).end <= (#[trigger] after[b]).start
        ||| after[b].end <= after[a].start
    } by {
        let pos = if i < table.len() {
            i
        } else {
            table.len() as int
        };
        if a == pos {
            assert(after[b] == table[b]);
        } else if b == pos {
            assert(after[a] == table[a]);
        } else {
            assert(after[a] == table[a] && after[b] == table[b]);
        }
    }
    assert forall|a: int| 0 <= a < after.len() implies 0 <= (#[trigger] after[a]).start
        < lines.len() && start_tag(lines[after[a].start]) == Some(after[a].name) by {
        if a < table.len() && a != i {
            assert(after[a] == table[a]);
        }
    }
}

/// The scan keeps its invariant line after line.
pub proof fn lemma_scan_invariant(lines: Seq<Seq<char>>, n: int)
    requires
        0 <= n <= lines.len(),
    ensures
        scan_invariant(scan(lines, n), lines, n),
    decreases n,
{
    if n > 0 {
        lemma_scan_invariant(lines, n - 1);
        let st = scan(lines, n - 1);
        let line = lines[n - 1];
        if start_tag(line) is Some {
        } else if end_tag(line) is Some {
            let tag = end_tag(line)->0;
            match st.open {
                Some((name, start)) => {
                    if tag.len() == 0 || tag == name {
                        lemma_upsert_well_formed(
                            st.table,
                            Section { name, domains: st.domains, start, end: n },
                            lines,
                            n - 1,
                            n,
                        );
                    }
                },
                None => {},
            }
        }
    }
}

/// The sections read from a document are well formed, and each begins at a
/// start marker with its project's name.
pub proof fn lemma_parsed_well_formed(lines: Seq<Seq<char>>)
    ensures
        well_formed(parsed_sections(lines), lines.len() as int),
        starts_at_markers(parsed_sections(lines), lines),
{
    let n = lines.len() as int;
    lemma_scan_invariant(lines, n);
    let st = scan(lines, n);
    match st.open {
        Some((name, start)) => {
            lemma_upsert_well_formed(
                st.table,
                Section { name, domains: st.domains, start, end: n },
                lines,
                n,
                n,
            );
        },
        None => {},
    }
}

// ---------------------------------------------------------------------------
// Executable types
// ---------------------------------------------------------------------------

/// One project's managed section as read from the hosts file.
#[derive(Debug, Clone)]
pub struct ProjectSection {
    pub project_name: String,
    pub domains: Vec<String>,
    pub start_line: usize,
    pub end_line: usize,
}

impl View for ProjectSection {
    type V = Section;

    open spec fn view(&self) -> Section {
        Section {
            name: self.project_name@,
            domains: texts(self.domains@),
            start: self.start_line as int,
            end: self.end_line as int,
        }
    }
}

/// The managed sections of a hosts file, one per project, in the order in
/// which the projects first appear.
#[derive(Debug)]
pub struct SectionTable {
    entries: Vec<ProjectSection>,
}

impl View for SectionTable {
    type V = Seq<Section>;

    closed spec fn view(&self) -> Seq<Section> {
        self.entries@.map_values(|e: ProjectSection| e@)
    }
}

impl SectionTable {
    /// Every project has at most one section. `new` yields such a table and
    /// `insert` keeps it so.
    pub open spec fn wf(&self) -> bool {
        distinct_names(self@)
    }

    pub fn new() -> (table: Self)
        ensures
            table@ == Seq::<Section>::empty(),
            table.wf(),
    {
        let table = SectionTable { entries: Vec::new() };
        assert(table@ =~= Seq::<Section>::empty());
        table
    }

    pub fn len(&self) -> (n: usize)
        ensures
            n == self@.len(),
    {
        self.entries.len()
    }

    pub fn is_empty(&self) -> (b: bool)
        ensures
            b == (self@.len() == 0),
    {
        self.entries.len() == 0
    }

    /// The section at position `i`.
    pub fn section(&self, i: usize) -> (s: &ProjectSection)
        requires
            i < self@.len(),
        ensures
            s@ == self@[i as int],
    {
        &self.entries[i]
    }

    /// Position of the section of project `name`, or `len()`.
    pub fn position(&self, name: &Vec<char>) -> (i: usize)
        ensures
            i == index_of_name(self@, name@, 0),
            i <= self@.len(),
    {
        let mut i: usize = 0;
        while i < self.entries.len()
            invariant
                i <= self.entries.len(),
                index_of_name(self@, name@, i as int) == index_of_name(self@, name@, 0),
            decreases self.entries.len() - i,
        {
            let entry_name = chars_of(self.entries[i].project_name.as_str());
            assert(self@[i as int].name == entry_name@);
            if same_text(&entry_name, name) {
                return i;
            }
            i += 1;
        }
        i
    }

    /// The section of project `name`.
    pub fn get(&self, name: &str) -> (r: Option<&ProjectSection>)
        ensures
            match r {
                Some(s) => lookup(self@, name@) == Some(s@),
                None => lookup(self@, name@) is None,
            },
    {
        let i = self.position(&chars_of(name));
        if i < self.entries.len() {
            Some(&self.entries[i])
        } else {
            None
        }
    }

    pub fn contains_key(&self, name: &str) -> (b: bool)
        ensures
            b == lookup(self@, name@).is_some(),
    {
        let i = self.position(&chars_of(name));
        i < self.entries.len()
    }

    /// Puts `section` in the place of the section of the same project, or at
    /// the end when the project had none.
    pub fn insert(&mut self, section: ProjectSection)
        ensures
            final(self)@ == upsert(old(self)@, section@),
            old(self).wf() ==> final(self).wf(),
    {
        proof {
            if self.wf() {
                lemma_upsert_distinct(self@, section@);
            }
        }
        let i = self.position(&chars_of(section.project_name.as_str()));
        if i < self.entries.len() {
            self.entries.set(i, section);
            assert(self@ =~= upsert(old(self)@, section@));
        } else {
            self.entries.push(section);
            assert(self@ =~= upsert(old(self)@, section@));
        }
    }
}

/// Reads the tag that follows `prefix` on a line.
fn read_tag(line: &Vec<char>, prefix: &Vec<char>) -> (r: Option<Vec<char>>)
    ensures
        match r {
            Some(tag) => tag_after(line@, prefix@) == Some(tag@),
            None => tag_after(line@, prefix@) is None,
        },
{
    let t = trim(line);
    if has_prefix(&t, prefix) {
        let rest = slice_of(&t, prefix.len(), t.len());
        Some(trim(&rest))
    } else {
        None
    }
}

/// The domain that a line binds to the loopback address.
pub fn read_loopback_domain(line: &Vec<char>) -> (r: Option<Vec<char>>)
    ensures
        match r {
            Some(d) => loopback_domain(line@) == Some(d@),
            None => loopback_domain(line@) is None,
        },
{
    let t = trim(line);
    let address = chars_of("127.0.0.1");
    if has_prefix(&t, &address) {
        second_token(&t)
    } else {
        None
    }
}

/// Reads the managed sections out of the lines of a hosts file in one
/// forward scan.
pub fn parse_sections(lines: &Vec<String>) -> (table: SectionTable)
    ensures
        table@ == parsed_sections(texts(lines@)),
        well_formed(table@, lines@.len() as int),
        starts_at_markers(table@, texts(lines@)),
{
    let start_prefix = chars_of("# === oh-my-dockers start ===");
    let end_prefix = chars_of("# === oh-my-dockers end ===");
    let mut table = SectionTable::new();
    let mut is_open = false;
    let mut open_name: Vec<char> = Vec::new();
    let mut open_start: usize = 0;
    let mut domains: Vec<String> = Vec::new();
    let mut idx: usize = 0;
    assert(texts(domains@) =~= Seq::<Seq<char>>::empty());
    while idx < lines.len()
        invariant
            idx <= lines.len(),
            start_prefix@ == section_start_prefix(),
            end_prefix@ == section_end_prefix(),
            scan(texts(lines@), idx as int) == (Scan {
                open: if is_open {
                    Some((open_name@, open_start as int))
                } else {
                    None
                },
                domains: texts(domains@),
                table: table@,
            }),
        decreases lines.len() - idx,
    {
        let line = chars_of(lines[idx].as_str());
        assert(texts(lines@)[idx as int] == line@);
        match read_tag(&line, &start_prefix) {
            Some(name) => {
                if name.len() > 0 {
                    is_open = true;
                    open_name = name;
                    open_start = idx;
                    domains = Vec::new();
                    assert(texts(domains@) =~= Seq::<Seq<char>>::empty());
                }
            },
            None => {
                match read_tag(&line, &end_prefix) {
                    Some(tag) => {
                        if is_open && (tag.len() == 0 || same_text(&tag, &open_name)) {
                            let section = ProjectSection {
                                project_name: string_of(&open_name),
                                domains: domains,
                                start_line: open_start,
                                end_line: idx + 1,
                            };
                            table.insert(section);
                            is_open = false;
                            domains = Vec::new();
                            assert(texts(domains@) =~= Seq::<Seq<char>>::empty());
                        }
                    },
                    None => {
                        if is_open {
                            match read_loopback_domain(&line) {
                                Some(d) => {
                                    let domain = string_of(&d);
                                    assert(texts(domains@.push(domain)) =~= texts(domains@).push(
                                        d@,
                                    ));
                                    domains.push(domain);
                                },
                                None => {},
                            }
                        }
                    },
                }
            },
        }
        idx += 1;
    }
    if is_open {
        let section = ProjectSection {
            project_name: string_of(&open_name),
            domains: domains,
            start_line: open_start,
            end_line: lines.len(),
        };
        table.insert(section);
    }
    proof {
        lemma_parsed_well_formed(texts(lines@));
    }
    table
}

/// Splits the text of a hosts file into its lines and reads its managed
/// sections.
pub fn parse_hosts_file(content: &str) -> (r: (Vec<String>, SectionTable))
    ensures
        texts(r.0@) == lines_of(content@),
        r.1@ == parsed_sections(lines_of(content@)),
        well_formed(r.1@, lines_of(content@).len() as int),
        starts_at_markers(r.1@, lines_of(content@)),
{
    let lines = split_lines(&chars_of(content));
    let table = parse_sections(&lines);
    (lines, table)
}

} // verus!

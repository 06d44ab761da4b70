//! Reconciling one project's managed section with a desired set of domains.
//!
//! Nothing here touches the file system: every function takes the current
//! text or lines of the hosts file and says what the new text is. Lines
//! outside the section of the project at hand are copied as they are.
use crate::hosts::{
    covered, loopback, loopback_domain, lookup, marker_prefix, read_loopback_domain,
    section_end_prefix, section_start_prefix, Section, SectionTable,
};
use crate::text::{
    chars_of, content_of, extend_chars, is_blank, join_lines, same_text, string_of, texts, trim,
};
use vstd::prelude::*;

verus! {

/// The domain that line `idx` binds to the loopback address, when that line
/// lies outside every managed section.
pub open spec fn unmanaged_at(lines: Seq<Seq<char>>, table: Seq<Section>, idx: int) -> Option<
    Seq<char>,
> {
    if covered(table, idx) {
        None
    } else {
        loopback_domain(lines[idx])
    }
}

/// Some line before `n` binds `d` outside every managed section.
pub open spec fn unmanaged_before(
    lines: Seq<Seq<char>>,
    table: Seq<Section>,
    n: int,
    d: Seq<char>,
) -> bool {
    exists|idx: int| 0 <= idx < n && #[trigger] unmanaged_at(lines, table, idx) == Some(d)
}

/// The loopback-bound domains on lines outside every managed section.
pub open spec fn unmanaged_domains(lines: Seq<Seq<char>>, table: Seq<Section>) -> Set<Seq<char>> {
    Set::new(|d: Seq<char>| unmanaged_before(lines, table, lines.len() as int, d))
}

/// The lines without those of the section of project `name`.
pub open spec fn without_section(lines: Seq<Seq<char>>, table: Seq<Section>, name: Seq<char>) -> Seq<
    Seq<char>,
> {
    match lookup(table, name) {
        Some(s) => if 0 <= s.start < lines.len() {
            let stop = if s.end > s.start {
                s.end
            } else {
                s.start + 1
            };
            let stop = if stop < lines.len() {
                stop
            } else {
                lines.len() as int
            };
            lines.subrange(0, s.start) + lines.subrange(stop, lines.len() as int)
        } else {
            lines
        },
        None => lines,
    }
}

/// The lines without the blank lines at the end.
pub open spec fn drop_blank_tail(lines: Seq<Seq<char>>) -> Seq<Seq<char>>
    decreases lines.len(),
{
    if lines.len() > 0 && is_blank(lines.last()) {
        drop_blank_tail(lines.drop_last())
    } else {
        lines
    }
}

/// Dropping the blank tail leaves a prefix.
pub proof fn lemma_blank_tail_is_prefix(lines: Seq<Seq<char>>)
    ensures
        drop_blank_tail(lines).len() <= lines.len(),
        drop_blank_tail(lines) == lines.subrange(0, drop_blank_tail(lines).len() as int),
    decreases lines.len(),
{
    if lines.len() > 0 && is_blank(lines.last()) {
        lemma_blank_tail_is_prefix(lines.drop_last());
        let kept = drop_blank_tail(lines.drop_last());
        assert(kept =~= lines.subrange(0, kept.len() as int));
    } else {
        assert(lines =~= lines.subrange(0, lines.len() as int));
    }
}

/// A marker line: the prefix, one space, the project's name.
pub open spec fn tagged_line(prefix: Seq<char>, name: Seq<char>) -> Seq<char> {
    prefix + seq![' '] + name
}

/// The line that binds `domain` to the loopback address.
pub open spec fn domain_line(domain: Seq<char>) -> Seq<char> {
    loopback() + seq![' '] + domain
}

pub open spec fn domain_lines(domains: Seq<Seq<char>>) -> Seq<Seq<char>> {
    domains.map_values(|d: Seq<char>| domain_line(d))
}

/// A freshly rendered section: an empty line, the start marker, the comment
/// line, one line per domain, the end marker.
pub open spec fn section_lines(name: Seq<char>, domains: Seq<Seq<char>>) -> Seq<Seq<char>> {
    seq![
        Seq::<char>::empty(),
        tagged_line(section_start_prefix(), name),
        tagged_line(marker_prefix(), name),
    ] + domain_lines(domains) + seq![tagged_line(section_end_prefix(), name)]
}

/// The lines of the new document: the old ones without the project's
/// section and without blank lines at the end, then the new section if there
/// are domains to write.
pub open spec fn rebuilt_lines(
    lines: Seq<Seq<char>>,
    table: Seq<Section>,
    name: Seq<char>,
    domains: Option<Seq<Seq<char>>>,
) -> Seq<Seq<char>> {
    let kept = drop_blank_tail(without_section(lines, table, name));
    match domains {
        Some(ds) => if ds.len() > 0 {
            kept + section_lines(name, ds)
        } else {
            kept
        },
        None => kept,
    }
}

/// The text of the new document.
pub open spec fn rebuilt_content(
    lines: Seq<Seq<char>>,
    table: Seq<Section>,
    name: Seq<char>,
    domains: Option<Seq<Seq<char>>>,
) -> Seq<char> {
    content_of(rebuilt_lines(lines, table, name, domains))
}

/// The views of an optional list of strings.
pub open spec fn optional_texts(list: Option<&Vec<String>>) -> Option<Seq<Seq<char>>> {
    match list {
        Some(v) => Some(texts(v@)),
        None => None,
    }
}

// ---------------------------------------------------------------------------

/// Whether line `idx` lies inside some managed section.
pub fn is_managed_line(sections: &SectionTable, idx: usize) -> (b: bool)
    ensures
        b == covered(sections@, idx as int),
{
    let mut i: usize = 0;
    while i < sections.len()
        invariant
            i <= sections@.len(),
            forall|k: int|
                0 <= k < i ==> !((#[trigger] sections@[k]).start <= idx < sections@[k].end),
        decreases sections@.len() - i,
    {
        let s = sections.section(i);
        if s.start_line <= idx && idx < s.end_line {
            return true;
        }
        i += 1;
    }
    false
}

/// Whether `list` holds the text `item`.
pub fn contains_text(list: &Vec<String>, item: &Vec<char>) -> (b: bool)
    ensures
        b == texts(list@).contains(item@),
{
    let mut i: usize = 0;
    while i < list.len()
        invariant
            i <= list.len(),
            forall|k: int| 0 <= k < i ==> texts(list@)[k] != item@,
        decreases list.len() - i,
    {
        let entry = chars_of(list[i].as_str());
        assert(texts(list@)[i as int] == entry@);
        if same_text(&entry, item) {
            return true;
        }
        i += 1;
    }
    false
}

/// Every loopback-bound domain on a line outside all managed sections, each
/// once.
pub fn find_unmanaged_domains(lines: &Vec<String>, sections: &SectionTable) -> (found: Vec<String>)
    ensures
        texts(found@).no_duplicates(),
        texts(found@).to_set() == unmanaged_domains(texts(lines@), sections@),
{
    let mut found: Vec<String> = Vec::new();
    let mut idx: usize = 0;
    while idx < lines.len()
        invariant
            idx <= lines.len(),
            texts(found@).no_duplicates(),
            forall|d: Seq<char>|
                texts(found@).contains(d) <==> unmanaged_before(
                    texts(lines@),
                    sections@,
                    idx as int,
                    d,
                ),
        decreases lines.len() - idx,
    {
        let ghost before = texts(found@);
        let ghost all = texts(lines@);
        let mut fresh: Option<Vec<char>> = None;
        if !is_managed_line(sections, idx) {
            let line = chars_of(lines[idx].as_str());
            assert(all[idx as int] == line@);
            fresh = read_loopback_domain(&line);
        }
        proof {
            assert(match fresh {
                Some(d) => unmanaged_at(all, sections@, idx as int) == Some(d@),
                None => unmanaged_at(all, sections@, idx as int) is None,
            });
        }
        match fresh {
            Some(d) => {
                if !contains_text(&found, &d) {
                    let domain = string_of(&d);
                    assert(texts(found@.push(domain)) =~= before.push(d@));
                    found.push(domain);
                }
            },
            None => {},
        }
        proof {
            let after = texts(found@);
            let here = unmanaged_at(all, sections@, idx as int);
            assert forall|d: Seq<char>| after.contains(d) <==> unmanaged_before(
                all,
                sections@,
                idx + 1,
                d,
            ) by {
                if after.contains(d) {
                    if before.contains(d) {
                        let w = choose|w: int|
                            0 <= w < idx && #[trigger] unmanaged_at(all, sections@, w) == Some(d);
                        assert(0 <= w < idx + 1 && unmanaged_at(all, sections@, w) == Some(d));
                    } else {
                        let k = choose|k: int| 0 <= k < after.len() && after[k] == d;
                        assert(after == before.push(d));
                        assert(here == Some(d));
                    }
                }
                if unmanaged_before(all, sections@, idx + 1, d) {
                    let w = choose|w: int|
                        0 <= w < idx + 1 && #[trigger] unmanaged_at(all, sections@, w) == Some(d);
                    if w < idx {
                        assert(unmanaged_before(all, sections@, idx as int, d));
                        assert(before.contains(d));
                        let k = choose|k: int| 0 <= k < before.len() && before[k] == d;
                        assert(after[k] == d);
                    } else {
                        assert(here == Some(d));
                        if !before.contains(d) {
                            assert(after == before.push(d));
                            assert(after[before.len() as int] == d);
                        } else {
                            let k = choose|k: int| 0 <= k < before.len() && before[k] == d;
                            assert(after[k] == d);
                        }
                    }
                }
            }
        }
        idx += 1;
    }
    proof {
        assert(texts(found@).to_set() =~= unmanaged_domains(texts(lines@), sections@));
    }
    found
}

/// Whether a line holds nothing but white space.
pub fn is_blank_line(line: &str) -> (b: bool)
    ensures
        b == is_blank(line@),
{
    trim(&chars_of(line)).len() == 0
}

/// The marker line made of `prefix`, a space and `name`.
fn make_tagged_line(prefix: &str, name: &Vec<char>) -> (line: String)
    ensures
        line@ == tagged_line(prefix@, name@),
{
    let mut chars = chars_of(prefix);
    chars.push(' ');
    extend_chars(&mut chars, name);
    assert(chars@ =~= tagged_line(prefix@, name@));
    string_of(&chars)
}

/// Appends a freshly rendered section for `name` to `lines`.
fn push_section(lines: &mut Vec<String>, name: &Vec<char>, domains: &Vec<String>)
    ensures
        texts(final(lines)@) == texts(old(lines)@) + section_lines(name@, texts(domains@)),
{
    let ghost head = texts(lines@);
    let ghost ds = texts(domains@);
    let blank = String::new();
    let start = make_tagged_line("# === oh-my-dockers start ===", name);
    let marker = make_tagged_line("# oh-my-dockers", name);
    let end = make_tagged_line("# === oh-my-dockers end ===", name);
    let ghost opening = seq![
        Seq::<char>::empty(),
        tagged_line(section_start_prefix(), name@),
        tagged_line(marker_prefix(), name@),
    ];
    assert(texts(lines@.push(blank)) =~= head.push(blank@));
    lines.push(blank);
    assert(texts(lines@.push(start)) =~= texts(lines@).push(start@));
    lines.push(start);
    assert(texts(lines@.push(marker)) =~= texts(lines@).push(marker@));
    lines.push(marker);
    assert(texts(lines@) =~= head + opening);
    let mut k: usize = 0;
    while k < domains.len()
        invariant
            k <= domains.len(),
            ds == texts(domains@),
            texts(lines@) == head + opening + domain_lines(ds).subrange(0, k as int),
        decreases domains.len() - k,
    {
        let line = make_tagged_line("127.0.0.1", &chars_of(domains[k].as_str()));
        proof {
            assert(line@ == domain_line(ds[k as int]));
            assert(texts(lines@.push(line)) =~= texts(lines@).push(line@));
            assert(domain_lines(ds).subrange(0, k + 1) =~= domain_lines(ds).subrange(
                0,
                k as int,
            ).push(line@));
            assert(head + opening + domain_lines(ds).subrange(0, k + 1) =~= (head + opening
                + domain_lines(ds).subrange(0, k as int)).push(line@));
        }
        lines.push(line);
        k += 1;
    }
    proof {
        assert(domain_lines(ds).subrange(0, domains.len() as int) =~= domain_lines(ds));
        assert(texts(lines@.push(end)) =~= texts(lines@).push(end@));
        assert((head + opening + domain_lines(ds)).push(end@) =~= head + section_lines(name@, ds));
    }
    lines.push(end);
}

/// The lines of the document without the section of project `name` and
/// without blank lines at the end.
fn kept_lines(lines: &Vec<String>, sections: &SectionTable, name: &str) -> (kept: Vec<String>)
    ensures
        texts(kept@) == drop_blank_tail(without_section(texts(lines@), sections@, name@)),
{
    let n = lines.len();
    let mut from: usize = n;
    let mut to: usize = n;
    match sections.get(name) {
        Some(s) => {
            if s.start_line < n {
                from = s.start_line;
                to = if s.end_line > s.start_line {
                    s.end_line
                } else {
                    s.start_line + 1
                };
                if to > n {
                    to = n;
                }
            }
        },
        None => {},
    }
    let ghost all = texts(lines@);
    let ghost target = all.subrange(0, from as int) + all.subrange(to as int, n as int);
    assert(target == without_section(all, sections@, name@)) by {
        assert(all.subrange(0, n as int) + all.subrange(n as int, n as int) =~= all);
    }
    let mut kept: Vec<String> = Vec::new();
    let mut i: usize = 0;
    while i < from
        invariant
            i <= from <= to <= n,
            n == lines.len(),
            all == texts(lines@),
            texts(kept@) == all.subrange(0, i as int),
        decreases from - i,
    {
        let line = lines[i].clone();
        assert(line@ == all[i as int]);
        assert(texts(kept@.push(line)) =~= texts(kept@).push(line@));
        assert(all.subrange(0, i + 1) =~= all.subrange(0, i as int).push(line@));
        kept.push(line);
        i += 1;
    }
    let mut j: usize = to;
    while j < n
        invariant
            from <= to <= j <= n,
            n == lines.len(),
            all == texts(lines@),
            texts(kept@) == all.subrange(0, from as int) + all.subrange(to as int, j as int),
        decreases n - j,
    {
        let line = lines[j].clone();
        assert(line@ == all[j as int]);
        assert(texts(kept@.push(line)) =~= texts(kept@).push(line@));
        assert(all.subrange(0, from as int) + all.subrange(to as int, j + 1) =~= (all.subrange(
            0,
            from as int,
        ) + all.subrange(to as int, j as int)).push(line@));
        kept.push(line);
        j += 1;
    }
    assert(texts(kept@) == target);
    trim_blank_tail(&mut kept);
    kept
}

/// Removes the blank lines at the end of `lines`.
pub fn trim_blank_tail(lines: &mut Vec<String>)
    ensures
        texts(final(lines)@) == drop_blank_tail(texts(old(lines)@)),
{
    while lines.len() > 0 && is_blank_line(lines[lines.len() - 1].as_str())
        invariant
            drop_blank_tail(texts(lines@)) == drop_blank_tail(texts(old(lines)@)),
        decreases lines.len(),
    {
        proof {
            assert(texts(lines@).last() == lines@[lines.len() - 1]@);
            assert(texts(lines@).drop_last() =~= texts(lines@.drop_last()));
        }
        lines.pop();
    }
    proof {
        if lines.len() > 0 {
            assert(texts(lines@).last() == lines@[lines.len() - 1]@);
        }
    }
}

/// The new text of the hosts file: the old lines without the section of
/// `project_name` and without blank lines at the end, then a fresh section
/// for the project when `new_domains` holds at least one domain.
pub fn build_hosts_content(
    current_lines: &Vec<String>,
    sections: &SectionTable,
    project_name: &str,
    new_domains: Option<&Vec<String>>,
) -> (content: String)
    ensures
        content@ == rebuilt_content(
            texts(current_lines@),
            sections@,
            project_name@,
            optional_texts(new_domains),
        ),
{
    let mut result = kept_lines(current_lines, sections, project_name);
    match new_domains {
        Some(domains) => {
            if domains.len() > 0 {
                push_section(&mut result, &chars_of(project_name), domains);
            }
        },
        None => {},
    }
    join_lines(&result)
}

} // verus!

//! What holds of reconciliation as a whole: a section that was written is
//! read back as it was written, a domain that someone else holds is never
//! taken, and reconciling twice does nothing the second time.
use crate::hosts::{
    end_tag, index_of_name, lemma_index_of_name, lemma_upsert_lookup, loopback, loopback_domain,
    lookup, marker_prefix, parsed_sections, scan, scan_step, section_end_prefix,
    section_start_prefix, start_tag, tag_after, upsert, Scan, Section,
};
use crate::plan::{owner_of, planned, triage, verdict, SkipCause};
use crate::reconcile::{
    domain_line, domain_lines, drop_blank_tail, lemma_blank_tail_is_prefix, rebuilt_content,
    rebuilt_lines, section_lines, tagged_line, unmanaged_domains, without_section,
};
use crate::text::{
    content_of, is_space, lemma_lines_are_single, lemma_lines_of_content, lemma_skip_spaces_to,
    lemma_skip_word_to, lemma_trimmed_identity, lines_of, no_char, single_lines, strip_cr,
    trimmed,
};
use vstd::prelude::*;

verus! {

/// A project name that a marker line carries unchanged: it is not empty, has
/// no white space at either end and holds no line feed.
pub open spec fn valid_project_name(name: Seq<char>) -> bool {
    &&& name.len() > 0
    &&& !is_space(name[0])
    &&& !is_space(name.last())
    &&& no_char(name, '\n')
}

/// A domain that a loopback line carries unchanged: it is not empty and
/// holds no white space.
pub open spec fn valid_domain(d: Seq<char>) -> bool {
    d.len() > 0 && forall|i: int| 0 <= i < d.len() ==> !is_space(#[trigger] d[i])
}

pub open spec fn valid_domains(ds: Seq<Seq<char>>) -> bool {
    forall|i: int| 0 <= i < ds.len() ==> valid_domain(#[trigger] ds[i])
}

// ---------------------------------------------------------------------------
// The marker texts, character by character
// ---------------------------------------------------------------------------

proof fn lemma_start_prefix_text()
    ensures
        section_start_prefix() == seq![
            '#', ' ', '=', '=', '=', ' ', 'o', 'h', '-', 'm', 'y', '-', 'd', 'o', 'c', 'k', 'e', 'r',
            's', ' ', 's', 't', 'a', 'r', 't', ' ', '=', '=', '=',
        ],
{
    reveal_strlit("# === oh-my-dockers start ===");
    assert(section_start_prefix() =~= seq![
        '#', ' ', '=', '=', '=', ' ', 'o', 'h', '-', 'm', 'y', '-', 'd', 'o', 'c', 'k', 'e', 'r',
        's', ' ', 's', 't', 'a', 'r', 't', ' ', '=', '=', '=',
    ]);
}

proof fn lemma_end_prefix_text()
    ensures
        section_end_prefix() == seq![
            '#', ' ', '=', '=', '=', ' ', 'o', 'h', '-', 'm', 'y', '-', 'd', 'o', 'c', 'k', 'e', 'r',
            's', ' ', 'e', 'n', 'd', ' ', '=', '=', '=',
        ],
{
    reveal_strlit("# === oh-my-dockers end ===");
    assert(section_end_prefix() =~= seq![
        '#', ' ', '=', '=', '=', ' ', 'o', 'h', '-', 'm', 'y', '-', 'd', 'o', 'c', 'k', 'e', 'r',
        's', ' ', 'e', 'n', 'd', ' ', '=', '=', '=',
    ]);
}

proof fn lemma_marker_prefix_text()
    ensures
        marker_prefix() == seq![
            '#', ' ', 'o', 'h', '-', 'm', 'y', '-', 'd', 'o', 'c', 'k', 'e', 'r', 's',
        ],
{
    reveal_strlit("# oh-my-dockers");
    assert(marker_prefix() =~= seq![
        '#', ' ', 'o', 'h', '-', 'm', 'y', '-', 'd', 'o', 'c', 'k', 'e', 'r', 's',
    ]);
}

proof fn lemma_loopback_text()
    ensures
        loopback() == seq!['1', '2', '7', '.', '0', '.', '0', '.', '1'],
{
    reveal_strlit("127.0.0.1");
    assert(loopback() =~= seq!['1', '2', '7', '.', '0', '.', '0', '.', '1']);
}

/// The four marker texts begin with a visible character and hold no line
/// feed; the loopback address holds no white space at all.
pub proof fn lemma_marker_texts()
    ensures
        section_start_prefix().len() == 29 && section_start_prefix()[0] == '#'
            && section_start_prefix()[20] == 's',
        section_end_prefix().len() == 27 && section_end_prefix()[0] == '#' && section_end_prefix()[20]
            == 'e',
        marker_prefix().len() == 15 && marker_prefix()[0] == '#' && marker_prefix()[2] == 'o',
        section_start_prefix()[2] == '=' && section_end_prefix()[2] == '=',
        loopback().len() == 9 && loopback()[0] == '1',
        no_char(section_start_prefix(), '\n'),
        no_char(section_end_prefix(), '\n'),
        no_char(marker_prefix(), '\n'),
        no_char(loopback(), '\n'),
        forall|i: int| 0 <= i < 9 ==> !is_space(#[trigger] loopback()[i]),
{
    lemma_start_prefix_text();
    lemma_end_prefix_text();
    lemma_marker_prefix_text();
    lemma_loopback_text();
}

// ---------------------------------------------------------------------------
// How the rendered lines read
// ---------------------------------------------------------------------------

/// A text that differs from `p` at `k`, or is too short to reach `k`, does
/// not start with `p`.
proof fn lemma_not_prefix(p: Seq<char>, s: Seq<char>, k: int)
    requires
        0 <= k < p.len(),
        k < s.len() ==> s[k] != p[k],
    ensures
        !p.is_prefix_of(s),
{
    if p.is_prefix_of(s) {
        assert(s.subrange(0, p.len() as int)[k] == s[k]);
    }
}

/// A marker line made of a prefix and a valid name is its own trimmed form
/// and carries the name.
proof fn lemma_tagged_line(prefix: Seq<char>, name: Seq<char>)
    requires
        prefix.len() > 0,
        !is_space(prefix[0]),
        name.len() > 0,
        !is_space(name[0]),
        !is_space(name.last()),
    ensures
        trimmed(tagged_line(prefix, name)) == tagged_line(prefix, name),
        tag_after(tagged_line(prefix, name), prefix) == Some(name),
{
    let line = tagged_line(prefix, name);
    assert(line[0] == prefix[0]);
    assert(line.last() == name.last());
    lemma_trimmed_identity(line);
    assert(line.subrange(0, prefix.len() as int) =~= prefix);
    let rest = line.subrange(prefix.len() as int, line.len() as int);
    assert(rest =~= seq![' '] + name);
    assert(is_space(rest[0]));
    assert(rest[1] == name[0]);
    lemma_skip_spaces_to(rest, 0, 1);
    assert(rest.last() == name.last());
    assert(rest.subrange(1, rest.len() as int) =~= name);
}

/// A line that is its own trimmed form and does not start with `prefix`
/// carries no tag for it.
proof fn lemma_no_tag(line: Seq<char>, prefix: Seq<char>, k: int)
    requires
        trimmed(line) == line,
        0 <= k < prefix.len(),
        k < line.len() ==> line[k] != prefix[k],
    ensures
        tag_after(line, prefix) is None,
{
    lemma_not_prefix(prefix, line, k);
}

/// The start marker of a valid name opens a section of that name.
pub proof fn lemma_start_line(name: Seq<char>)
    requires
        valid_project_name(name),
    ensures
        start_tag(tagged_line(section_start_prefix(), name)) == Some(name),
        loopback_domain(tagged_line(section_start_prefix(), name)) is None,
{
    lemma_marker_texts();
    let line = tagged_line(section_start_prefix(), name);
    lemma_tagged_line(section_start_prefix(), name);
    assert(line[0] == section_start_prefix()[0]);
    lemma_not_prefix(loopback(), line, 0);
}

/// The end marker of a valid name is no start marker and closes a section of
/// that name.
pub proof fn lemma_end_line(name: Seq<char>)
    requires
        valid_project_name(name),
    ensures
        start_tag(tagged_line(section_end_prefix(), name)) is None,
        end_tag(tagged_line(section_end_prefix(), name)) == Some(name),
        loopback_domain(tagged_line(section_end_prefix(), name)) is None,
{
    lemma_marker_texts();
    let line = tagged_line(section_end_prefix(), name);
    lemma_tagged_line(section_end_prefix(), name);
    assert(line[20] == section_end_prefix()[20]);
    lemma_no_tag(line, section_start_prefix(), 20);
    assert(line[0] == section_end_prefix()[0]);
    lemma_not_prefix(loopback(), line, 0);
}

/// The comment line of a section is no marker and binds no domain.
pub proof fn lemma_marker_line(name: Seq<char>)
    requires
        valid_project_name(name),
    ensures
        start_tag(tagged_line(marker_prefix(), name)) is None,
        end_tag(tagged_line(marker_prefix(), name)) is None,
        loopback_domain(tagged_line(marker_prefix(), name)) is None,
{
    lemma_marker_texts();
    let line = tagged_line(marker_prefix(), name);
    lemma_tagged_line(marker_prefix(), name);
    assert(line[2] == marker_prefix()[2]);
    assert(line[0] == marker_prefix()[0]);
    lemma_no_tag(line, section_start_prefix(), 2);
    lemma_no_tag(line, section_end_prefix(), 2);
    lemma_not_prefix(loopback(), line, 0);
}

/// An empty line is no marker and binds no domain.
pub proof fn lemma_empty_line()
    ensures
        start_tag(Seq::empty()) is None,
        end_tag(Seq::empty()) is None,
        loopback_domain(Seq::empty()) is None,
{
    lemma_marker_texts();
    let line = Seq::<char>::empty();
    assert(trimmed(line) =~= line);
    lemma_not_prefix(section_start_prefix(), line, 0);
    lemma_not_prefix(section_end_prefix(), line, 0);
    lemma_not_prefix(loopback(), line, 0);
}

/// The line of a valid domain is no marker and binds that domain.
pub proof fn lemma_domain_line(d: Seq<char>)
    requires
        valid_domain(d),
    ensures
        start_tag(domain_line(d)) is None,
        end_tag(domain_line(d)) is None,
        loopback_domain(domain_line(d)) == Some(d),
        trimmed(domain_line(d)) == domain_line(d),
{
    lemma_marker_texts();
    let line = domain_line(d);
    let n = line.len() as int;
    assert(line[0] == loopback()[0]);
    assert(line.last() == d.last());
    assert(!is_space(d[d.len() - 1]));
    lemma_trimmed_identity(line);
    lemma_no_tag(line, section_start_prefix(), 0);
    lemma_no_tag(line, section_end_prefix(), 0);
    assert(line.subrange(0, 9) =~= loopback());
    assert forall|k: int| 0 <= k < 9 implies !is_space(#[trigger] line[k]) by {
        assert(line[k] == loopback()[k]);
    }
    assert(line[9] == ' ');
    assert forall|k: int| 10 <= k < n implies !is_space(#[trigger] line[k]) by {
        assert(line[k] == d[k - 10]);
    }
    lemma_skip_spaces_to(line, 0, 0);
    lemma_skip_word_to(line, 0, 9);
    lemma_skip_spaces_to(line, 9, 10);
    lemma_skip_word_to(line, 10, n);
    assert(line.subrange(10, n) =~= d);
}

// ---------------------------------------------------------------------------
// Reading back a rendered section
// ---------------------------------------------------------------------------

/// While the domain lines of a rendered section are read, the section stays
/// open and collects the domains one by one.
proof fn lemma_scan_domain_lines(
    lines: Seq<Seq<char>>,
    base: int,
    name: Seq<char>,
    start: int,
    table: Seq<Section>,
    ds: Seq<Seq<char>>,
    i: int,
)
    requires
        0 <= base,
        0 <= i <= ds.len(),
        base + ds.len() <= lines.len(),
        valid_domains(ds),
        forall|k: int| 0 <= k < ds.len() ==> #[trigger] lines[base + k] == domain_line(ds[k]),
        scan(lines, base) == (Scan { open: Some((name, start)), domains: Seq::empty(), table }),
    ensures
        scan(lines, base + i) == (Scan {
            open: Some((name, start)),
            domains: ds.subrange(0, i),
            table,
        }),
    decreases i,
{
    if i == 0 {
        assert(ds.subrange(0, 0) =~= Seq::<Seq<char>>::empty());
    } else {
        lemma_scan_domain_lines(lines, base, name, start, table, ds, i - 1);
        let line = lines[base + (i - 1)];
        assert(line == domain_line(ds[i - 1]));
        assert(valid_domain(ds[i - 1]));
        lemma_domain_line(ds[i - 1]);
        assert(ds.subrange(0, i - 1).push(ds[i - 1]) =~= ds.subrange(0, i));
        assert(scan(lines, base + i) == scan_step(
            scan(lines, base + i - 1),
            base + i - 1,
            lines[base + i - 1],
        ));
    }
}

/// Lines that follow do not change what was read before them.
proof fn lemma_scan_prefix(a: Seq<Seq<char>>, b: Seq<Seq<char>>, n: int)
    requires
        0 <= n <= a.len(),
    ensures
        scan(a + b, n) == scan(a, n),
    decreases n,
{
    if n > 0 {
        lemma_scan_prefix(a, b, n - 1);
        assert((a + b)[n - 1] == a[n - 1]);
    }
}

/// The section that a rendered section is read as, when `before` lines
/// precede it.
pub open spec fn section_read(before: int, name: Seq<char>, ds: Seq<Seq<char>>) -> Section {
    Section { name, domains: ds, start: before + 1, end: before + 4 + ds.len() }
}

/// Whatever precedes it, reading a rendered section of a valid name with
/// valid domains puts that section into the table and leaves none open.
proof fn lemma_rendered_section_scan(head: Seq<Seq<char>>, name: Seq<char>, ds: Seq<Seq<char>>)
    requires
        valid_project_name(name),
        valid_domains(ds),
    ensures
        scan(head + section_lines(name, ds), (head.len() + 4 + ds.len()) as int) == (Scan {
            open: None,
            domains: Seq::empty(),
            table: upsert(
                scan(head, head.len() as int).table,
                section_read(head.len() as int, name, ds),
            ),
        }),
{
    let section = section_lines(name, ds);
    let lines = head + section;
    let h = head.len() as int;
    let m = ds.len() as int;
    assert(section.len() == 4 + m);
    assert(lines.len() == h + 4 + m);
    assert(lines[h] == Seq::<char>::empty());
    assert(lines[h + 1] == tagged_line(section_start_prefix(), name));
    assert(lines[h + 2] == tagged_line(marker_prefix(), name));
    assert(lines[h + 3 + m] == tagged_line(section_end_prefix(), name));
    assert forall|k: int| 0 <= k < m implies #[trigger] lines[h + 3 + k] == domain_line(ds[k]) by {
        assert(lines[h + 3 + k] == section[3 + k]);
        assert(section[3 + k] == domain_lines(ds)[k]);
    }
    lemma_empty_line();
    lemma_start_line(name);
    lemma_marker_line(name);
    lemma_end_line(name);
    lemma_scan_prefix(head, section, h);
    let st0 = scan(lines, h);
    assert(scan(lines, h + 1) == scan_step(st0, h, lines[h]));
    assert(scan(lines, h + 1) == st0);
    assert(scan(lines, h + 2) == scan_step(st0, h + 1, lines[h + 1]));
    let opened = Scan { open: Some((name, h + 1)), domains: Seq::empty(), table: st0.table };
    assert(scan(lines, h + 2) == opened);
    assert(scan(lines, h + 3) == scan_step(opened, h + 2, lines[h + 2]));
    assert(scan(lines, h + 3) == opened);
    lemma_scan_domain_lines(lines, h + 3, name, h + 1, st0.table, ds, m);
    assert(ds.subrange(0, m) =~= ds);
    let full = Scan { open: Some((name, h + 1)), domains: ds, table: st0.table };
    assert(scan(lines, h + 3 + m) == full);
    assert(scan(lines, h + 4 + m) == scan_step(full, h + 3 + m, lines[h + 3 + m]));
}

/// Whatever precedes it, a rendered section of a valid name with valid
/// domains is read back as the section of that name with those domains.
pub proof fn lemma_rendered_section_reads_back(
    head: Seq<Seq<char>>,
    name: Seq<char>,
    ds: Seq<Seq<char>>,
)
    requires
        valid_project_name(name),
        valid_domains(ds),
    ensures
        lookup(parsed_sections(head + section_lines(name, ds)), name) == Some(
            section_read(head.len() as int, name, ds),
        ),
{
    lemma_rendered_section_scan(head, name, ds);
    lemma_upsert_lookup(
        scan(head, head.len() as int).table,
        section_read(head.len() as int, name, ds),
        name,
    );
}

/// The lines of a document that holds nothing but the rendered sections of
/// the given projects, each with its domains, in order.
pub open spec fn rendered_sections(parts: Seq<(Seq<char>, Seq<Seq<char>>)>) -> Seq<Seq<char>>
    decreases parts.len(),
{
    if parts.len() == 0 {
        Seq::empty()
    } else {
        rendered_sections(parts.drop_last()) + section_lines(parts.last().0, parts.last().1)
    }
}

/// Each project has a valid name and valid domains, and no project occurs
/// twice.
pub open spec fn valid_parts(parts: Seq<(Seq<char>, Seq<Seq<char>>)>) -> bool {
    &&& forall|i: int|
        0 <= i < parts.len() ==> valid_project_name((#[trigger] parts[i]).0) && valid_domains(
            parts[i].1,
        )
    &&& forall|i: int, j: int|
        0 <= i < j < parts.len() ==> (#[trigger] parts[i]).0 != (#[trigger] parts[j]).0
}

proof fn lemma_sections_scan(parts: Seq<(Seq<char>, Seq<Seq<char>>)>)
    requires
        valid_parts(parts),
    ensures
        scan(rendered_sections(parts), rendered_sections(parts).len() as int).open is None,
        scan(rendered_sections(parts), rendered_sections(parts).len() as int).table.len()
            == parts.len(),
        forall|i: int|
            0 <= i < parts.len() ==> {
                let s = #[trigger] scan(
                    rendered_sections(parts),
                    rendered_sections(parts).len() as int,
                ).table[i];
                s.name == parts[i].0 && s.domains == parts[i].1
            },
    decreases parts.len(),
{
    if parts.len() > 0 {
        let front = parts.drop_last();
        let (name, ds) = parts.last();
        assert(valid_parts(front)) by {
            assert forall|i: int| 0 <= i < front.len() implies valid_project_name(
                (#[trigger] front[i]).0,
            ) && valid_domains(front[i].1) by {
                assert(front[i] == parts[i]);
            }
            assert forall|i: int, j: int| 0 <= i < j < front.len() implies (#[trigger] front[i]).0
                != (#[trigger] front[j]).0 by {
                assert(front[i] == parts[i]);
                assert(front[j] == parts[j]);
            }
        }
        lemma_sections_scan(front);
        let head = rendered_sections(front);
        let before = scan(head, head.len() as int).table;
        assert(parts.last() == parts[parts.len() - 1]);
        lemma_rendered_section_scan(head, name, ds);
        let lines = rendered_sections(parts);
        assert(lines.len() == head.len() + 4 + ds.len());
        lemma_index_of_name(before, name, 0);
        let at = index_of_name(before, name, 0);
        if at < before.len() {
            assert(before[at].name == front[at].0);
            assert(front[at] == parts[at]);
            assert(false);
        }
        let after = scan(lines, lines.len() as int).table;
        assert(after == before.push(section_read(head.len() as int, name, ds)));
        assert forall|i: int| 0 <= i < parts.len() implies {
            let s = #[trigger] after[i];
            s.name == parts[i].0 && s.domains == parts[i].1
        } by {
            if i < front.len() {
                assert(after[i] == before[i]);
                assert(front[i] == parts[i]);
            }
        }
    }
}

/// Counting sections. A document that holds nothing but the rendered
/// sections of `k` projects is read as `k` sections: one for each project,
/// in order, with the project's domains.
pub proof fn law_sections_are_counted(parts: Seq<(Seq<char>, Seq<Seq<char>>)>)
    requires
        valid_parts(parts),
    ensures
        parsed_sections(rendered_sections(parts)).len() == parts.len(),
        forall|i: int|
            0 <= i < parts.len() ==> {
                let s = #[trigger] parsed_sections(rendered_sections(parts))[i];
                s.name == parts[i].0 && s.domains == parts[i].1
            },
{
    lemma_sections_scan(parts);
}

/// The lines that are kept hold no line feed if the document's lines hold
/// none.
pub proof fn lemma_kept_single(lines: Seq<Seq<char>>, table: Seq<Section>, name: Seq<char>)
    requires
        single_lines(lines),
    ensures
        single_lines(drop_blank_tail(without_section(lines, table, name))),
{
    let cut = without_section(lines, table, name);
    assert(single_lines(cut)) by {
        assert forall|i: int| 0 <= i < cut.len() implies no_char(#[trigger] cut[i], '\n') by {
            match lookup(table, name) {
                Some(s) => {
                    if 0 <= s.start < lines.len() {
                        let stop = if s.end > s.start {
                            s.end
                        } else {
                            s.start + 1
                        };
                        let stop = if stop < lines.len() {
                            stop
                        } else {
                            lines.len() as int
                        };
                        if i < s.start {
                            assert(cut[i] == lines[i]);
                        } else {
                            assert(cut[i] == lines[stop + (i - s.start)]);
                        }
                    }
                },
                None => {},
            }
        }
    }
    lemma_blank_tail_is_prefix(cut);
    let kept = drop_blank_tail(cut);
    assert forall|i: int| 0 <= i < kept.len() implies no_char(#[trigger] kept[i], '\n') by {
        assert(kept[i] == cut[i]);
    }
}

/// The lines of a rendered section hold no line feed and end in no carriage
/// return.
pub proof fn lemma_section_lines_clean(name: Seq<char>, ds: Seq<Seq<char>>)
    requires
        valid_project_name(name),
        valid_domains(ds),
    ensures
        single_lines(section_lines(name, ds)),
        section_lines(name, ds).map_values(|l: Seq<char>| strip_cr(l)) == section_lines(name, ds),
{
    lemma_marker_texts();
    let section = section_lines(name, ds);
    let m = ds.len() as int;
    assert(section.len() == 4 + m);
    assert(is_space('\r') && is_space('\n'));
    assert forall|i: int| 0 <= i < section.len() implies no_char(#[trigger] section[i], '\n')
        && strip_cr(section[i]) == section[i] by {
        let line = section[i];
        if i == 0 {
        } else if i == 1 || i == 2 || i == 3 + m {
            let prefix = if i == 1 {
                section_start_prefix()
            } else if i == 2 {
                marker_prefix()
            } else {
                section_end_prefix()
            };
            assert(line == tagged_line(prefix, name));
            assert(line.last() == name.last());
            assert forall|k: int| 0 <= k < line.len() implies #[trigger] line[k] != '\n' by {
                if k < prefix.len() {
                    assert(line[k] == prefix[k]);
                } else if k == prefix.len() {
                    assert(line[k] == ' ');
                } else {
                    assert(line[k] == name[k - prefix.len() - 1]);
                }
            }
        } else {
            let d = ds[i - 3];
            assert(line == domain_lines(ds)[i - 3]);
            assert(line == domain_line(d));
            assert(valid_domain(d));
            assert(line.last() == d.last());
            assert(!is_space(d[d.len() - 1]));
            assert forall|k: int| 0 <= k < line.len() implies #[trigger] line[k] != '\n' by {
                if k < 9 {
                    assert(line[k] == loopback()[k]);
                } else if k == 9 {
                    assert(line[k] == ' ');
                } else {
                    assert(line[k] == d[k - 10]);
                    assert(!is_space(d[k - 10]));
                }
            }
        }
    }
    assert(section.map_values(|l: Seq<char>| strip_cr(l)) =~= section);
}

/// Recovery. A section that is still open when the document ends is
/// committed: the project is found with the domains collected so far, from
/// the line of its start marker to the end of the document.
pub proof fn law_open_section_is_committed(lines: Seq<Seq<char>>)
    ensures
        scan(lines, lines.len() as int).open matches Some((name, start)) ==> lookup(
            parsed_sections(lines),
            name,
        ) == Some(
            Section {
                name,
                domains: scan(lines, lines.len() as int).domains,
                start,
                end: lines.len() as int,
            },
        ),
{
    let st = scan(lines, lines.len() as int);
    if let Some((name, start)) = st.open {
        lemma_upsert_lookup(
            st.table,
            Section { name, domains: st.domains, start, end: lines.len() as int },
            name,
        );
    }
}

/// Round trip. When a section for a valid project name with valid domains
/// is written into a document, reading the new text gives, for that project,
/// exactly the domains that were written.
pub proof fn law_written_section_reads_back(
    lines: Seq<Seq<char>>,
    table: Seq<Section>,
    name: Seq<char>,
    domains: Seq<Seq<char>>,
)
    requires
        single_lines(lines),
        valid_project_name(name),
        valid_domains(domains),
        domains.len() > 0,
    ensures
        lookup(
            parsed_sections(lines_of(rebuilt_content(lines, table, name, Some(domains)))),
            name,
        ) matches Some(s) && s.name == name && s.domains == domains && s.domains.to_set()
            == domains.to_set(),
{
    let kept = drop_blank_tail(without_section(lines, table, name));
    let section = section_lines(name, domains);
    let written = rebuilt_lines(lines, table, name, Some(domains));
    assert(written == kept + section);
    lemma_kept_single(lines, table, name);
    lemma_section_lines_clean(name, domains);
    assert(single_lines(written)) by {
        assert forall|i: int| 0 <= i < written.len() implies no_char(#[trigger] written[i], '\n') by {
            if i < kept.len() {
                assert(written[i] == kept[i]);
            } else {
                assert(written[i] == section[i - kept.len()]);
            }
        }
    }
    lemma_lines_of_content(written);
    let read = lines_of(content_of(written));
    let head = kept.map_values(|l: Seq<char>| strip_cr(l));
    assert(read =~= head + section) by {
        assert forall|i: int| 0 <= i < read.len() implies read[i] == (head + section)[i] by {
            if i < kept.len() {
                assert(written[i] == kept[i]);
            } else {
                assert(written[i] == section[i - kept.len()]);
                assert(section.map_values(|l: Seq<char>| strip_cr(l))[i - kept.len()] == section[i
                    - kept.len()]);
            }
        }
    }
    lemma_rendered_section_reads_back(head, name, domains);
}

// ---------------------------------------------------------------------------
// Who gets a domain
// ---------------------------------------------------------------------------

/// What the parting of the first `n` desired domains holds: a domain is
/// accepted exactly if it is desired and nothing speaks against it, and it
/// is skipped, with the verdict as the reason, exactly if it is desired and
/// there is a verdict against it. No domain is accepted twice.
pub proof fn lemma_triage_members(
    lines: Seq<Seq<char>>,
    table: Seq<Section>,
    name: Seq<char>,
    desired: Seq<Seq<char>>,
    n: int,
)
    requires
        0 <= n <= desired.len(),
    ensures
        forall|d: Seq<char>| #[trigger]
            triage(lines, table, name, desired, n).accepted.contains(d) <==> desired.subrange(
                0,
                n,
            ).contains(d) && verdict(lines, table, name, d) is None,
        forall|d: Seq<char>, c: SkipCause| #[trigger]
            triage(lines, table, name, desired, n).skipped.contains((d, c)) <==> desired.subrange(
                0,
                n,
            ).contains(d) && verdict(lines, table, name, d) == Some(c),
        triage(lines, table, name, desired, n).accepted.no_duplicates(),
    decreases n,
{
    let now = triage(lines, table, name, desired, n);
    let head = desired.subrange(0, n);
    if n == 0 {
    } else {
        lemma_triage_members(lines, table, name, desired, n - 1);
        let before = triage(lines, table, name, desired, n - 1);
        let front = desired.subrange(0, n - 1);
        let x = desired[n - 1];
        assert(head =~= front.push(x));
        assert forall|d: Seq<char>| head.contains(d) <==> front.contains(d) || d == x by {
            if head.contains(d) {
                let i = choose|i: int| 0 <= i < head.len() && head[i] == d;
                if i < n - 1 {
                    assert(front[i] == d);
                }
            }
            if front.contains(d) {
                let i = choose|i: int| 0 <= i < front.len() && front[i] == d;
                assert(head[i] == d);
            }
            assert(head[n - 1] == x);
        }
        let v = verdict(lines, table, name, x);
        assert forall|d: Seq<char>| #[trigger]
            now.accepted.contains(d) <==> head.contains(d) && verdict(lines, table, name, d)
                is None by {
            if !front.contains(x) && v is None {
                vstd::seq_lib::lemma_seq_contains_after_push(before.accepted, x, d);
            }
        }
        assert forall|d: Seq<char>, c: SkipCause| #[trigger]
            now.skipped.contains((d, c)) <==> head.contains(d) && verdict(lines, table, name, d)
                == Some(c) by {
            if !front.contains(x) && v is Some {
                vstd::seq_lib::lemma_seq_contains_after_push(before.skipped, (x, v->0), (d, c));
            }
        }
        if !front.contains(x) && v is None {
            assert(!before.accepted.contains(x));
            assert forall|i: int, j: int|
                0 <= i < now.accepted.len() && 0 <= j < now.accepted.len() && i != j implies now.accepted[i]
                != now.accepted[j] by {
                if i == before.accepted.len() {
                    assert(before.accepted.contains(before.accepted[j]));
                } else if j == before.accepted.len() {
                    assert(before.accepted.contains(before.accepted[i]));
                }
            }
        }
    }
}

/// Unmanaged protection. A desired domain that a line outside every managed
/// section binds, and that no other project owns, is skipped for that reason
/// and is not accepted.
pub proof fn law_unmanaged_domain_is_skipped(
    lines: Seq<Seq<char>>,
    table: Seq<Section>,
    name: Seq<char>,
    desired: Seq<Seq<char>>,
    d: Seq<char>,
)
    requires
        desired.contains(d),
        unmanaged_domains(lines, table).contains(d),
        owner_of(table, name, d) is None,
    ensures
        triage(lines, table, name, desired, desired.len() as int).skipped.contains(
            (d, SkipCause::Unmanaged),
        ),
        !triage(lines, table, name, desired, desired.len() as int).accepted.contains(d),
{
    lemma_triage_members(lines, table, name, desired, desired.len() as int);
    assert(desired.subrange(0, desired.len() as int) =~= desired);
}

/// A domain in another project's section is skipped as owned by that
/// project and is not accepted.
pub proof fn law_owned_domain_is_skipped(
    lines: Seq<Seq<char>>,
    table: Seq<Section>,
    name: Seq<char>,
    desired: Seq<Seq<char>>,
    d: Seq<char>,
)
    requires
        desired.contains(d),
        owner_of(table, name, d) is Some,
    ensures
        triage(lines, table, name, desired, desired.len() as int).skipped.contains(
            (d, SkipCause::OwnedBy(owner_of(table, name, d)->0)),
        ),
        !triage(lines, table, name, desired, desired.len() as int).accepted.contains(d),
{
    lemma_triage_members(lines, table, name, desired, desired.len() as int);
    assert(desired.subrange(0, desired.len() as int) =~= desired);
}

/// Idempotence. Once a project was reconciled to a set of domains, none of
/// which was refused, reconciling it to the same domains again changes
/// nothing: the second plan writes nothing and leaves the text as it is.
///
/// For the removal of a project, the case of no desired domains, this is
/// stated of documents in which the removal leaves no section of the
/// project behind.
pub proof fn law_reconcile_twice(content: Seq<char>, name: Seq<char>, desired: Seq<Seq<char>>)
    requires
        valid_project_name(name),
        valid_domains(desired),
        planned(content, name, desired).skipped.len() == 0,
        desired.len() == 0 ==> lookup(
            parsed_sections(lines_of(planned(content, name, desired).content)),
            name,
        ) is None,
    ensures
        !planned(planned(content, name, desired).content, name, desired).changed,
        planned(planned(content, name, desired).content, name, desired).content == planned(
            content,
            name,
            desired,
        ).content,
{
    let first = planned(content, name, desired);
    if first.changed {
        let lines = lines_of(content);
        let table = parsed_sections(lines);
        let n = desired.len() as int;
        let parted = triage(lines, table, name, desired, n);
        let accepted = parted.accepted;
        assert(first.content == rebuilt_content(lines, table, name, Some(accepted)));
        assert(first.skipped == parted.skipped);
        lemma_triage_members(lines, table, name, desired, n);
        assert(desired.subrange(0, n) =~= desired);
        assert forall|d: Seq<char>| desired.contains(d) implies accepted.contains(d) by {
            let v = verdict(lines, table, name, d);
            if v is Some {
                assert(parted.skipped.contains((d, v->0)));
            }
        }
        assert(accepted.to_set() =~= desired.to_set());
        if accepted.len() > 0 {
            lemma_lines_are_single(content);
            assert(valid_domains(accepted)) by {
                assert forall|i: int| 0 <= i < accepted.len() implies valid_domain(
                    #[trigger] accepted[i],
                ) by {
                    assert(accepted.contains(accepted[i]));
                    let k = choose|k: int| 0 <= k < desired.len() && desired[k] == accepted[i];
                    assert(valid_domain(desired[k]));
                }
            }
            law_written_section_reads_back(lines, table, name, accepted);
        } else {
            if desired.len() > 0 {
                assert(desired.contains(desired[0]));
                assert(accepted.contains(desired[0]));
            }
        }
    }
}

} // verus!

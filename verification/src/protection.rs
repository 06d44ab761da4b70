//! Unmanaged protection: a domain that a hand-written line binds is not
//! written a second time.
use crate::hosts::{
    covered, index_of_name, lemma_index_of_name, lemma_parsed_well_formed, loopback,
    loopback_domain, lookup, parsed_sections, scan, scan_step, upsert, Section,
};
use crate::laws::{
    law_written_section_reads_back, lemma_domain_line, lemma_empty_line, lemma_end_line,
    lemma_kept_single, lemma_marker_line, lemma_marker_texts, lemma_section_lines_clean,
    lemma_start_line, lemma_triage_members, valid_domain, valid_domains, valid_project_name,
};
use crate::plan::{planned, triage, verdict};
use crate::reconcile::{
    domain_lines, drop_blank_tail, lemma_blank_tail_is_prefix, rebuilt_lines, section_lines,
    unmanaged_at, unmanaged_before, unmanaged_domains, without_section,
};
use crate::removal::{law_section_is_taken_out, lemma_reread, one_marker};
use crate::text::{
    content_of, is_blank, lemma_lines_are_single, lines_of, no_char, single_lines, trimmed,
};
use vstd::prelude::*;

verus! {

/// Line `at` binds `d` to the loopback address, and no other line does.
pub open spec fn bound_once(lines: Seq<Seq<char>>, d: Seq<char>, at: int) -> bool {
    &&& 0 <= at < lines.len()
    &&& loopback_domain(lines[at]) == Some(d)
    &&& forall|j: int|
        0 <= j < lines.len() && loopback_domain(#[trigger] lines[j]) == Some(d) ==> j == at
}

/// Some line from `a` up to `b` binds `d`.
pub open spec fn bound_in(lines: Seq<Seq<char>>, a: int, b: int, d: Seq<char>) -> bool {
    exists|j: int|
        a <= j < b && 0 <= j < lines.len() && loopback_domain(#[trigger] lines[j]) == Some(d)
}

/// Every domain of the section is bound by a line of the section.
pub open spec fn bound_within(s: Section, lines: Seq<Seq<char>>) -> bool {
    forall|k: int|
        0 <= k < s.domains.len() ==> bound_in(lines, s.start, s.end, #[trigger] s.domains[k])
}

/// Every section holds only domains that its own lines bind.
pub open spec fn all_bound(table: Seq<Section>, lines: Seq<Seq<char>>) -> bool {
    forall|i: int| 0 <= i < table.len() ==> bound_within(#[trigger] table[i], lines)
}

proof fn lemma_upsert_bound(table: Seq<Section>, section: Section, lines: Seq<Seq<char>>)
    requires
        all_bound(table, lines),
        bound_within(section, lines),
    ensures
        all_bound(upsert(table, section), lines),
{
    lemma_index_of_name(table, section.name, 0);
    let after = upsert(table, section);
    let at = index_of_name(table, section.name, 0);
    assert forall|i: int| 0 <= i < after.len() implies bound_within(#[trigger] after[i], lines) by {
        if i != at {
            assert(after[i] == table[i]);
        }
    }
}

proof fn lemma_bound_in_longer(lines: Seq<Seq<char>>, a: int, b: int, c: int, d: Seq<char>)
    requires
        bound_in(lines, a, b, d),
        b <= c,
    ensures
        bound_in(lines, a, c, d),
{
    let j = choose|j: int|
        a <= j < b && 0 <= j < lines.len() && loopback_domain(#[trigger] lines[j]) == Some(d);
    assert(a <= j < c && loopback_domain(lines[j]) == Some(d));
}

/// While a document is read, the committed sections and the open one hold
/// only domains that their own lines bind.
proof fn lemma_scan_bound(lines: Seq<Seq<char>>, n: int)
    requires
        0 <= n <= lines.len(),
    ensures
        all_bound(scan(lines, n).table, lines),
        match scan(lines, n).open {
            Some((name, start)) => 0 <= start < n && forall|k: int|
                0 <= k < scan(lines, n).domains.len() ==> bound_in(
                    lines,
                    start,
                    n,
                    #[trigger] scan(lines, n).domains[k],
                ),
            None => true,
        },
    decreases n,
{
    if n > 0 {
        lemma_scan_bound(lines, n - 1);
        let st = scan(lines, n - 1);
        let line = lines[n - 1];
        let next = scan_step(st, n - 1, line);
        assert(scan(lines, n) == next);
        match st.open {
            Some((name, start)) => {
                assert forall|k: int| 0 <= k < st.domains.len() implies bound_in(
                    lines,
                    start,
                    n,
                    #[trigger] st.domains[k],
                ) by {
                    lemma_bound_in_longer(lines, start, n - 1, n, st.domains[k]);
                }
                let closed = Section { name, domains: st.domains, start, end: n };
                assert(bound_within(closed, lines));
                lemma_upsert_bound(st.table, closed, lines);
                match next.open {
                    Some((next_name, next_start)) => {
                        assert forall|k: int| 0 <= k < next.domains.len() implies bound_in(
                            lines,
                            next_start,
                            n,
                            #[trigger] next.domains[k],
                        ) by {
                            assert(next_start == start);
                            if k < st.domains.len() {
                                assert(next.domains[k] == st.domains[k]);
                                assert(bound_in(lines, start, n, st.domains[k]));
                            } else {
                                assert(loopback_domain(lines[n - 1]) == Some(next.domains[k]));
                            }
                        }
                    },
                    None => {},
                }
            },
            None => {},
        }
    }
}

/// Every section that is read from a document holds only domains that its
/// own lines bind.
pub proof fn lemma_parsed_bound(lines: Seq<Seq<char>>)
    ensures
        all_bound(parsed_sections(lines), lines),
{
    let n = lines.len() as int;
    lemma_scan_bound(lines, n);
    let st = scan(lines, n);
    match st.open {
        Some((name, start)) => {
            let closed = Section { name, domains: st.domains, start, end: n };
            assert(bound_within(closed, lines));
            lemma_upsert_bound(st.table, closed, lines);
        },
        None => {},
    }
}

/// A line that is not blank survives when the blank tail is dropped.
proof fn lemma_blank_tail_keeps(lines: Seq<Seq<char>>, i: int)
    requires
        0 <= i < lines.len(),
        !is_blank(lines[i]),
    ensures
        i < drop_blank_tail(lines).len(),
    decreases lines.len(),
{
    if is_blank(lines.last()) {
        lemma_blank_tail_keeps(lines.drop_last(), i);
    }
}

/// A line that binds a domain is not blank.
proof fn lemma_binding_line_is_not_blank(line: Seq<char>)
    requires
        loopback_domain(line) is Some,
    ensures
        !is_blank(line),
{
    lemma_marker_texts();
    assert(loopback().is_prefix_of(trimmed(line)));
}

/// The one line that binds `d` outside every section is kept, and stays the
/// only one, when the section of a project is taken out of the document.
proof fn lemma_kept_binds_once(
    lines: Seq<Seq<char>>,
    name: Seq<char>,
    d: Seq<char>,
    at: int,
) -> (k: int)
    requires
        bound_once(lines, d, at),
        !covered(parsed_sections(lines), at),
    ensures
        bound_once(drop_blank_tail(without_section(lines, parsed_sections(lines), name)), d, k),
{
    let table = parsed_sections(lines);
    lemma_parsed_well_formed(lines);
    let cut = without_section(lines, table, name);
    let k = match lookup(table, name) {
        Some(s) => {
            lemma_index_of_name(table, name, 0);
            let idx = index_of_name(table, name, 0);
            assert(s == table[idx]);
            assert(0 <= s.start < s.end <= lines.len());
            assert(!(table[idx].start <= at < table[idx].end));
            let gap = s.end - s.start;
            assert(cut == lines.subrange(0, s.start) + lines.subrange(s.end, lines.len() as int));
            let k = if at < s.start {
                at
            } else {
                at - gap
            };
            assert(cut[k] == lines[at]);
            assert forall|i: int|
                0 <= i < cut.len() && loopback_domain(#[trigger] cut[i]) == Some(d) implies i
                == k by {
                if i < s.start {
                    assert(cut[i] == lines[i]);
                } else {
                    assert(cut[i] == lines[i + gap]);
                }
            }
            k
        },
        None => at,
    };
    assert(bound_once(cut, d, k));
    lemma_binding_line_is_not_blank(cut[k]);
    lemma_blank_tail_keeps(cut, k);
    lemma_blank_tail_is_prefix(cut);
    let kept = drop_blank_tail(cut);
    assert(kept[k] == cut[k]);
    assert forall|i: int|
        0 <= i < kept.len() && loopback_domain(#[trigger] kept[i]) == Some(d) implies i == k by {
        assert(kept[i] == cut[i]);
    }
    k
}

/// A line of a rendered section binds one of the section's domains, or
/// none.
proof fn lemma_section_binds(name: Seq<char>, ds: Seq<Seq<char>>, i: int)
    requires
        valid_project_name(name),
        valid_domains(ds),
        0 <= i < section_lines(name, ds).len(),
    ensures
        match loopback_domain(section_lines(name, ds)[i]) {
            Some(d) => ds.contains(d),
            None => true,
        },
{
    let section = section_lines(name, ds);
    let m = ds.len() as int;
    assert(section.len() == 4 + m);
    lemma_empty_line();
    lemma_start_line(name);
    lemma_marker_line(name);
    lemma_end_line(name);
    if 3 <= i < 3 + m {
        assert(section[i] == domain_lines(ds)[i - 3]);
        assert(valid_domain(ds[i - 3]));
        lemma_domain_line(ds[i - 3]);
    }
}

/// Unmanaged protection. In a document that holds at most one start marker
/// of a project, let exactly one line bind a domain, outside every managed
/// section. When the project asks for that domain among others, the new
/// text binds the domain on exactly one line still, and the section of the
/// project, if there is one, does not hold it.
pub proof fn law_unmanaged_domain_is_not_written(
    content: Seq<char>,
    name: Seq<char>,
    desired: Seq<Seq<char>>,
    d: Seq<char>,
    at: int,
)
    requires
        valid_project_name(name),
        valid_domains(desired),
        desired.contains(d),
        bound_once(lines_of(content), d, at),
        !covered(parsed_sections(lines_of(content)), at),
        one_marker(lines_of(content), name),
    ensures
        exists|k: int| bound_once(lines_of(planned(content, name, desired).content), d, k),
        match lookup(parsed_sections(lines_of(planned(content, name, desired).content)), name) {
            Some(s) => !s.domains.contains(d),
            None => true,
        },
{
    let lines = lines_of(content);
    let table = parsed_sections(lines);
    let n = desired.len() as int;
    let parted = triage(lines, table, name, desired, n);
    let accepted = parted.accepted;
    let plan = planned(content, name, desired);
    let new = lines_of(plan.content);
    assert(unmanaged_at(lines, table, at) == Some(d));
    assert(unmanaged_before(lines, table, lines.len() as int, d));
    assert(unmanaged_domains(lines, table).contains(d));
    assert(verdict(lines, table, name, d) is Some);
    lemma_triage_members(lines, table, name, desired, n);
    assert(desired.subrange(0, n) =~= desired);
    assert(!accepted.contains(d));
    assert(valid_domains(accepted)) by {
        assert forall|i: int| 0 <= i < accepted.len() implies valid_domain(
            #[trigger] accepted[i],
        ) by {
            assert(accepted.contains(accepted[i]));
            assert(desired.contains(accepted[i]));
        }
    }
    lemma_parsed_bound(lines);
    match lookup(table, name) {
        Some(s) => {
            lemma_index_of_name(table, name, 0);
            let idx = index_of_name(table, name, 0);
            assert(s == table[idx]);
            if s.domains.contains(d) {
                let k = choose|k: int| 0 <= k < s.domains.len() && s.domains[k] == d;
                assert(bound_in(lines, s.start, s.end, s.domains[k]));
                let j = choose|j: int|
                    s.start <= j < s.end && 0 <= j < lines.len() && loopback_domain(
                        #[trigger] lines[j],
                    ) == Some(d);
                assert(j == at);
                assert(table[idx].start <= at < table[idx].end);
                assert(false);
            }
            if s.domains.to_set() == desired.to_set() {
                assert(desired.to_set().contains(d));
                assert(s.domains.to_set().contains(d));
                assert(false);
            }
        },
        None => {},
    }
    if !plan.changed {
        assert(plan.content == content);
        assert(bound_once(new, d, at));
    } else {
        let kept = drop_blank_tail(without_section(lines, table, name));
        let written = rebuilt_lines(lines, table, name, Some(accepted));
        assert(plan.content == content_of(written));
        let k = lemma_kept_binds_once(lines, name, d, at);
        lemma_lines_are_single(content);
        lemma_kept_single(lines, table, name);
        if accepted.len() > 0 {
            let section = section_lines(name, accepted);
            assert(written == kept + section);
            lemma_section_lines_clean(name, accepted);
            assert forall|i: int| 0 <= i < written.len() implies no_char(
                #[trigger] written[i],
                '\n',
            ) by {
                if i < kept.len() {
                    assert(written[i] == kept[i]);
                } else {
                    assert(written[i] == section[i - kept.len()]);
                }
            }
            assert forall|i: int|
                0 <= i < written.len() && loopback_domain(#[trigger] written[i]) == Some(
                    d,
                ) implies i == k by {
                if i < kept.len() {
                    assert(written[i] == kept[i]);
                } else {
                    assert(written[i] == section[i - kept.len()]);
                    lemma_section_binds(name, accepted, i - kept.len());
                }
            }
            assert(written[k] == kept[k]);
            law_written_section_reads_back(lines, table, name, accepted);
        } else {
            assert(written == kept);
            assert(accepted =~= Seq::<Seq<char>>::empty());
            law_section_is_taken_out(content, name);
        }
        assert(single_lines(written));
        assert(bound_once(written, d, k));
        lemma_reread(written);
        assert forall|i: int| 0 <= i < new.len() implies loopback_domain(#[trigger] new[i])
            == loopback_domain(written[i]) by {
            assert(trimmed(new[i]) == trimmed(written[i]));
        }
        assert(bound_once(new, d, k));
    }
}

} // verus!

//! Taking the section of a project out of a document, and removing a
//! project twice.
use crate::hosts::{
    index_of_name, lemma_index_of_name, lemma_parsed_well_formed, lookup, parsed_sections,
    start_tag, starts_at_markers, Section,
};
use crate::plan::{planned, triage};
use crate::reconcile::{
    drop_blank_tail, lemma_blank_tail_is_prefix, rebuilt_content, without_section,
};
use crate::text::{
    back_spaces, content_of, is_space, lemma_back_spaces, lemma_lines_are_single,
    lemma_lines_of_content, lemma_skip_spaces, lemma_split_separator, lines_of, single_lines,
    skip_spaces, split, strip_cr, trimmed,
};
use vstd::prelude::*;

verus! {

/// At most one line is a start marker of project `name`.
pub open spec fn one_marker(lines: Seq<Seq<char>>, name: Seq<char>) -> bool {
    forall|i: int, j: int|
        0 <= i < lines.len() && 0 <= j < lines.len() && start_tag(#[trigger] lines[i]) == Some(name)
            && start_tag(#[trigger] lines[j]) == Some(name) ==> i == j
}

/// No line is a start marker of project `name`.
pub open spec fn no_marker(lines: Seq<Seq<char>>, name: Seq<char>) -> bool {
    forall|i: int| 0 <= i < lines.len() ==> start_tag(#[trigger] lines[i]) != Some(name)
}

proof fn lemma_back_spaces_of_front(s: Seq<char>, j: int)
    requires
        s.len() > 0,
        0 <= j <= s.len() - 1,
    ensures
        back_spaces(s.drop_last(), j) == back_spaces(s, j),
    decreases j,
{
    let front = s.drop_last();
    if 0 < j && is_space(s[j - 1]) {
        assert(front[j - 1] == s[j - 1]);
        lemma_back_spaces_of_front(s, j - 1);
    } else if 0 < j {
        assert(front[j - 1] == s[j - 1]);
    }
}

proof fn lemma_skip_spaces_of_front(s: Seq<char>, i: int)
    requires
        s.len() > 0,
        0 <= i <= s.len() - 1,
    ensures
        skip_spaces(s.drop_last(), i) == if skip_spaces(s, i) < s.len() - 1 {
            skip_spaces(s, i)
        } else {
            s.len() - 1
        },
    decreases s.len() - i,
{
    let front = s.drop_last();
    lemma_skip_spaces(s, i);
    if i < s.len() - 1 {
        assert(front[i] == s[i]);
        if is_space(s[i]) {
            lemma_skip_spaces_of_front(s, i + 1);
        }
    }
}

/// A carriage return at the end of a line does not show once the line is
/// trimmed.
pub proof fn lemma_trimmed_strip_cr(line: Seq<char>)
    ensures
        trimmed(strip_cr(line)) == trimmed(line),
{
    if line.len() > 0 && line.last() == '\r' {
        let n = line.len() as int;
        let front = line.drop_last();
        assert(is_space('\r'));
        assert(line[n - 1] == '\r');
        lemma_back_spaces_of_front(line, n - 1);
        lemma_skip_spaces_of_front(line, 0);
        lemma_back_spaces(line, n - 1);
        lemma_skip_spaces(line, 0);
        let a = skip_spaces(line, 0);
        let b = back_spaces(line, n);
        assert(b == back_spaces(line, n - 1));
        assert(back_spaces(front, n - 1) == b);
        if a < b {
            assert(line.subrange(a, b) =~= front.subrange(a, b));
        }
    }
}

/// What is kept when the section of project `name` is taken out holds no
/// start marker of that project, if the document holds at most one.
proof fn lemma_kept_has_no_marker(lines: Seq<Seq<char>>, table: Seq<Section>, name: Seq<char>)
    requires
        one_marker(lines, name),
        table == parsed_sections(lines),
        lookup(table, name) is Some,
    ensures
        no_marker(drop_blank_tail(without_section(lines, table, name)), name),
{
    lemma_parsed_well_formed(lines);
    lemma_index_of_name(table, name, 0);
    let at = index_of_name(table, name, 0);
    let s = table[at];
    assert(start_tag(lines[s.start]) == Some(name));
    let stop = if s.end > s.start {
        s.end
    } else {
        s.start + 1
    };
    let stop = if stop < lines.len() {
        stop
    } else {
        lines.len() as int
    };
    let cut = without_section(lines, table, name);
    assert(cut == lines.subrange(0, s.start) + lines.subrange(stop, lines.len() as int));
    assert forall|i: int| 0 <= i < cut.len() implies start_tag(#[trigger] cut[i]) != Some(name) by {
        if i < s.start {
            assert(cut[i] == lines[i]);
        } else {
            assert(cut[i] == lines[stop + (i - s.start)]);
        }
    }
    lemma_blank_tail_is_prefix(cut);
    let kept = drop_blank_tail(cut);
    assert forall|i: int| 0 <= i < kept.len() implies start_tag(#[trigger] kept[i]) != Some(
        name,
    ) by {
        assert(kept[i] == cut[i]);
    }
}

/// A document without a start marker of a project has no section of that
/// project.
pub proof fn lemma_no_marker_no_section(lines: Seq<Seq<char>>, name: Seq<char>)
    requires
        no_marker(lines, name),
    ensures
        lookup(parsed_sections(lines), name) is None,
{
    lemma_parsed_well_formed(lines);
    let table = parsed_sections(lines);
    lemma_index_of_name(table, name, 0);
    let at = index_of_name(table, name, 0);
    if at < table.len() {
        assert(starts_at_markers(table, lines));
        assert(start_tag(lines[table[at].start]) == Some(name));
    }
}

/// What is read back from the text of lines that were written: as many
/// lines, each the same once it is trimmed.
pub proof fn lemma_reread(lines: Seq<Seq<char>>)
    requires
        lines.len() > 0,
        single_lines(lines),
    ensures
        lines_of(content_of(lines)).len() == lines.len(),
        forall|i: int|
            0 <= i < lines.len() ==> trimmed(#[trigger] lines_of(content_of(lines))[i]) == trimmed(
                lines[i],
            ),
{
    lemma_lines_of_content(lines);
    let read = lines_of(content_of(lines));
    assert forall|i: int| 0 <= i < lines.len() implies trimmed(#[trigger] read[i]) == trimmed(
        lines[i],
    ) by {
        assert(read[i] == strip_cr(lines[i]));
        lemma_trimmed_strip_cr(lines[i]);
    }
}

/// The text of no lines at all is read back as one empty line.
pub proof fn lemma_reread_nothing()
    ensures
        lines_of(content_of(Seq::empty())) == seq![Seq::<char>::empty()],
{
    let feed = seq!['\n'];
    assert(feed =~= Seq::<char>::empty() + seq!['\n']);
    lemma_split_separator(Seq::empty(), '\n');
    assert(split(Seq::<char>::empty(), '\n') =~= seq![Seq::<char>::empty()]);
    let fields = split(feed, '\n');
    assert(fields =~= seq![Seq::<char>::empty(), Seq::<char>::empty()]);
    assert(fields.drop_last() =~= seq![Seq::<char>::empty()]);
    assert(lines_of(content_of(Seq::empty())) =~= seq![Seq::<char>::empty()]);
}

/// Taking a section out. In a document that holds at most one start marker
/// of a project, the text that is built without the project's section holds
/// no start marker of the project, and so no section of it.
pub proof fn law_section_is_taken_out(content: Seq<char>, name: Seq<char>)
    requires
        one_marker(lines_of(content), name),
        lookup(parsed_sections(lines_of(content)), name) is Some,
    ensures
        no_marker(
            lines_of(
                rebuilt_content(
                    lines_of(content),
                    parsed_sections(lines_of(content)),
                    name,
                    Some(Seq::empty()),
                ),
            ),
            name,
        ),
        lookup(
            parsed_sections(
                lines_of(
                    rebuilt_content(
                        lines_of(content),
                        parsed_sections(lines_of(content)),
                        name,
                        Some(Seq::empty()),
                    ),
                ),
            ),
            name,
        ) is None,
{
    let lines = lines_of(content);
    let table = parsed_sections(lines);
    let kept = drop_blank_tail(without_section(lines, table, name));
    let read = lines_of(rebuilt_content(lines, table, name, Some(Seq::empty())));
    assert(read == lines_of(content_of(kept)));
    lemma_kept_has_no_marker(lines, table, name);
    lemma_lines_are_single(content);
    crate::laws::lemma_kept_single(lines, table, name);
    assert forall|i: int| 0 <= i < read.len() implies start_tag(#[trigger] read[i]) != Some(
        name,
    ) by {
        if kept.len() > 0 {
            lemma_reread(kept);
            assert(trimmed(read[i]) == trimmed(kept[i]));
            assert(start_tag(kept[i]) != Some(name));
        } else {
            lemma_reread_nothing();
            assert(trimmed(read[i]) =~= Seq::<char>::empty());
            reveal_strlit("# === oh-my-dockers start ===");
        }
    }
    lemma_no_marker_no_section(read, name);
}

/// Removing twice. In a document that holds at most one start marker of
/// a project, a second removal of the project changes nothing.
pub proof fn law_remove_twice(content: Seq<char>, name: Seq<char>)
    requires
        one_marker(lines_of(content), name),
    ensures
        !planned(planned(content, name, Seq::empty()).content, name, Seq::empty()).changed,
        planned(planned(content, name, Seq::empty()).content, name, Seq::empty()).content
            == planned(content, name, Seq::empty()).content,
{
    let none = Seq::<Seq<char>>::empty();
    let first = planned(content, name, none);
    let lines = lines_of(content);
    let table = parsed_sections(lines);
    assert(triage(lines, table, name, none, 0).accepted.len() == 0);
    assert(triage(lines, table, name, none, 0).accepted =~= none);
    if first.changed {
        law_section_is_taken_out(content, name);
        let read = lines_of(first.content);
        assert(triage(read, parsed_sections(read), name, none, 0).accepted.len() == 0);
    }
}

} // verus!

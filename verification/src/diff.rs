//! Showing what a change does to the managed blocks of a hosts file: the
//! blocks of the old and of the new text are compared as wholes, not line
//! by line.
use crate::blocks::{block_end_line, block_start_prefix};
use crate::search::{contains, contains_text};
use crate::text::{
    chars_of, extend_chars, has_prefix, lines_of, same_text, split_lines, string_of, texts, trim,
    trimmed,
};
use vstd::prelude::*;

verus! {

/// What is known of the blocks while the lines are read.
pub ghost struct BlockScan {
    pub inside: bool,
    pub current: Seq<char>,
    pub blocks: Seq<Seq<char>>,
}

/// A line that opens a block: it starts with the marker and holds no `end`
/// anywhere.
pub open spec fn opens_block(line: Seq<char>) -> bool {
    block_start_prefix().is_prefix_of(trimmed(line)) && !contains_text(line, "end"@)
}

/// What one line adds. A line that opens a block starts the block text
/// anew; the end line closes the text and stores it; any other line inside a
/// block is added to the text.
pub open spec fn block_step(scan: BlockScan, line: Seq<char>) -> BlockScan {
    if opens_block(line) {
        BlockScan { inside: true, current: line + seq!['\n'], blocks: scan.blocks }
    } else if trimmed(line) == block_end_line() {
        BlockScan {
            inside: false,
            current: scan.current + line,
            blocks: scan.blocks.push(scan.current + line),
        }
    } else if scan.inside {
        BlockScan { inside: true, current: scan.current + line + seq!['\n'], blocks: scan.blocks }
    } else {
        scan
    }
}

pub open spec fn block_scan(lines: Seq<Seq<char>>, n: int) -> BlockScan
    decreases n,
{
    if n <= 0 {
        BlockScan { inside: false, current: Seq::empty(), blocks: Seq::empty() }
    } else {
        block_step(block_scan(lines, n - 1), lines[n - 1])
    }
}

/// The texts of the managed blocks of a hosts file, in order.
pub open spec fn block_texts(content: Seq<char>) -> Seq<Seq<char>> {
    block_scan(lines_of(content), lines_of(content).len() as int).blocks
}

/// The texts of the managed blocks of a hosts file.
pub fn extract_managed_blocks(content: &str) -> (blocks: Vec<String>)
    ensures
        texts(blocks@) == block_texts(content@),
{
    let lines = split_lines(&chars_of(content));
    let marker = chars_of("# oh-my-dockers:");
    let closing = chars_of("# oh-my-dockers: end");
    let end = chars_of("end");
    let ghost all = texts(lines@);
    let mut inside = false;
    let mut current: Vec<char> = Vec::new();
    let mut blocks: Vec<String> = Vec::new();
    let mut i: usize = 0;
    assert(texts(blocks@) =~= Seq::<Seq<char>>::empty());
    while i < lines.len()
        invariant
            i <= lines.len(),
            all == texts(lines@),
            marker@ == block_start_prefix(),
            closing@ == block_end_line(),
            end@ == "end"@,
            block_scan(all, i as int) == (BlockScan {
                inside,
                current: current@,
                blocks: texts(blocks@),
            }),
        decreases lines.len() - i,
    {
        let line = chars_of(lines[i].as_str());
        assert(all[i as int] == line@);
        let t = trim(&line);
        let ghost before = current@;
        if has_prefix(&t, &marker) && !contains(&line, &end) {
            inside = true;
            current = Vec::new();
            extend_chars(&mut current, &line);
            current.push('\n');
            assert(current@ =~= line@ + seq!['\n']);
        } else if same_text(&t, &closing) {
            extend_chars(&mut current, &line);
            let block = string_of(&current);
            assert(texts(blocks@.push(block)) =~= texts(blocks@).push(block@));
            blocks.push(block);
            inside = false;
        } else if inside {
            extend_chars(&mut current, &line);
            current.push('\n');
            assert(current@ =~= before + line@ + seq!['\n']);
        }
        i += 1;
    }
    blocks
}

/// Those of the first `n` texts of `a` that are not among `b`.
pub open spec fn missing_from(a: Seq<Seq<char>>, b: Seq<Seq<char>>, n: int) -> Seq<Seq<char>>
    decreases n,
{
    if n <= 0 {
        Seq::empty()
    } else if b.contains(a[n - 1]) {
        missing_from(a, b, n - 1)
    } else {
        missing_from(a, b, n - 1).push(a[n - 1])
    }
}

/// The blocks that a change takes away and the blocks that it brings.
pub ghost struct Changes {
    pub removed: Seq<Seq<char>>,
    pub added: Seq<Seq<char>>,
}

/// What a change from one text to another does to the managed blocks: the
/// blocks of the old text that the new one lacks are removed, the blocks of
/// the new text that the old one lacks are added. Blocks that both have do
/// not show.
pub open spec fn changes_between(old_content: Seq<char>, new_content: Seq<char>) -> Changes {
    let before = block_texts(old_content);
    let after = block_texts(new_content);
    Changes {
        removed: missing_from(before, after, before.len() as int),
        added: missing_from(after, before, after.len() as int),
    }
}

/// The blocks that a change takes away and the blocks that it brings.
#[derive(Debug)]
pub struct BlockChanges {
    pub removed: Vec<String>,
    pub added: Vec<String>,
}

impl View for BlockChanges {
    type V = Changes;

    open spec fn view(&self) -> Changes {
        Changes { removed: texts(self.removed@), added: texts(self.added@) }
    }
}

fn missing(a: &Vec<String>, b: &Vec<String>) -> (r: Vec<String>)
    ensures
        texts(r@) == missing_from(texts(a@), texts(b@), a@.len() as int),
{
    let mut r: Vec<String> = Vec::new();
    let mut i: usize = 0;
    assert(texts(r@) =~= Seq::<Seq<char>>::empty());
    while i < a.len()
        invariant
            i <= a.len(),
            texts(r@) == missing_from(texts(a@), texts(b@), i as int),
        decreases a.len() - i,
    {
        let item = chars_of(a[i].as_str());
        assert(texts(a@)[i as int] == item@);
        if !crate::reconcile::contains_text(b, &item) {
            let copy = a[i].clone();
            assert(texts(r@.push(copy)) =~= texts(r@).push(copy@));
            r.push(copy);
        }
        i += 1;
    }
    r
}

/// What a change from `old_content` to `new_content` does to the managed
/// blocks.
pub fn block_changes(old_content: &str, new_content: &str) -> (changes: BlockChanges)
    ensures
        changes@ == changes_between(old_content@, new_content@),
{
    let before = extract_managed_blocks(old_content);
    let after = extract_managed_blocks(new_content);
    BlockChanges { removed: missing(&before, &after), added: missing(&after, &before) }
}

/// The first `n` domains, separated by spaces.
pub open spec fn spaced(domains: Seq<Seq<char>>, n: int) -> Seq<char>
    decreases n,
{
    if n <= 0 {
        Seq::empty()
    } else if n == 1 {
        domains[0]
    } else {
        spaced(domains, n - 1) + seq![' '] + domains[n - 1]
    }
}

/// The block of a project: the marker with the project's name, one line
/// that binds all of its domains to the loopback address, and the end line.
pub open spec fn entry_text(project: Seq<char>, domains: Seq<Seq<char>>) -> Seq<char> {
    "# oh-my-dockers: "@ + project + "\n127.0.0.1 "@ + spaced(domains, domains.len() as int)
        + "\n# oh-my-dockers: end"@
}

/// The block of a project with these domains.
pub fn hosts_entry(project: &str, domains: &Vec<String>) -> (entry: String)
    ensures
        entry@ == entry_text(project@, texts(domains@)),
{
    let mut out = chars_of("# oh-my-dockers: ");
    extend_chars(&mut out, &chars_of(project));
    extend_chars(&mut out, &chars_of("\n127.0.0.1 "));
    let ghost head = out@;
    let mut i: usize = 0;
    assert(out@ =~= head + spaced(texts(domains@), 0));
    while i < domains.len()
        invariant
            i <= domains.len(),
            out@ == head + spaced(texts(domains@), i as int),
        decreases domains.len() - i,
    {
        if i > 0 {
            out.push(' ');
        }
        extend_chars(&mut out, &chars_of(domains[i].as_str()));
        assert(texts(domains@)[i as int] == domains@[i as int]@);
        assert(out@ =~= head + spaced(texts(domains@), i + 1));
        i += 1;
    }
    extend_chars(&mut out, &chars_of("\n# oh-my-dockers: end"));
    assert(out@ =~= entry_text(project@, texts(domains@)));
    string_of(&out)
}

} // verus!

//! Managed blocks in the one-line format: a block begins at a line
//! `# oh-my-dockers: <project>` and runs to the next line
//! `# oh-my-dockers: end`.
use crate::hosts::tag_after;
use crate::order::{ascending, is_arrangement, sorted_order};
use crate::text::{
    chars_of, has_prefix, join_lines, lines_of, rows, same_text, slice_of, split_lines, content_of,
    string_of, texts, trim, trimmed,
};
use vstd::prelude::*;

verus! {

/// What a line starts with when it opens a block.
pub open spec fn block_start_prefix() -> Seq<char> {
    "# oh-my-dockers:"@
}

/// The line that closes a block.
pub open spec fn block_end_line() -> Seq<char> {
    "# oh-my-dockers: end"@
}

/// A managed block: the project and the lines of its first and last line.
pub ghost struct Block {
    pub name: Seq<char>,
    pub start: int,
    pub end: int,
}

/// Index of the first block at or after `from` that belongs to `name`, or
/// `blocks.len()`.
pub open spec fn index_of_block(blocks: Seq<Block>, name: Seq<char>, from: int) -> int
    decreases blocks.len() - from,
{
    if 0 <= from < blocks.len() && blocks[from].name != name {
        index_of_block(blocks, name, from + 1)
    } else {
        from
    }
}

/// The block of project `name`.
pub open spec fn block_of(blocks: Seq<Block>, name: Seq<char>) -> Option<Block> {
    let i = index_of_block(blocks, name, 0);
    if i < blocks.len() {
        Some(blocks[i])
    } else {
        None
    }
}

/// The blocks with `block` in the place of the one of the same project, or
/// at the end.
pub open spec fn put_block(blocks: Seq<Block>, block: Block) -> Seq<Block> {
    let i = index_of_block(blocks, block.name, 0);
    if i < blocks.len() {
        blocks.update(i, block)
    } else {
        blocks.push(block)
    }
}

/// The line that closes the block begun at `start`: the first end line at or
/// after `j`, or `start` itself when there is none.
pub open spec fn block_end(lines: Seq<Seq<char>>, start: int, j: int) -> int
    decreases lines.len() - j,
{
    if 0 <= j < lines.len() {
        if trimmed(lines[j]) == block_end_line() {
            j
        } else {
            block_end(lines, start, j + 1)
        }
    } else {
        start
    }
}

/// The blocks found from line `i` on, added to those found before.
pub open spec fn blocks_from(lines: Seq<Seq<char>>, i: int, found: Seq<Block>) -> Seq<Block>
    decreases lines.len() - i,
{
    if 0 <= i < lines.len() {
        match tag_after(lines[i], block_start_prefix()) {
            Some(name) => {
                let end = block_end(lines, i, i + 1);
                let next = if i <= end < lines.len() {
                    end + 1
                } else {
                    i + 1
                };
                blocks_from(lines, next, put_block(found, Block { name, start: i, end }))
            },
            None => blocks_from(lines, i + 1, found),
        }
    } else {
        found
    }
}

/// The managed blocks of a document.
pub open spec fn found_blocks(lines: Seq<Seq<char>>) -> Seq<Block> {
    blocks_from(lines, 0, Seq::empty())
}

/// Every block lies within the document.
pub open spec fn blocks_within(blocks: Seq<Block>, line_count: int) -> bool {
    forall|k: int|
        0 <= k < blocks.len() ==> 0 <= (#[trigger] blocks[k]).start <= blocks[k].end < line_count
}

pub proof fn lemma_block_end(lines: Seq<Seq<char>>, start: int, j: int)
    requires
        0 <= start < j <= lines.len(),
    ensures
        start <= block_end(lines, start, j) < lines.len(),
    decreases lines.len() - j,
{
    if j < lines.len() && trimmed(lines[j]) != block_end_line() {
        lemma_block_end(lines, start, j + 1);
    }
}

pub proof fn lemma_index_of_block(blocks: Seq<Block>, name: Seq<char>, from: int)
    requires
        0 <= from <= blocks.len(),
    ensures
        from <= index_of_block(blocks, name, from) <= blocks.len(),
        index_of_block(blocks, name, from) < blocks.len() ==> blocks[index_of_block(
            blocks,
            name,
            from,
        )].name == name,
    decreases blocks.len() - from,
{
    if from < blocks.len() && blocks[from].name != name {
        lemma_index_of_block(blocks, name, from + 1);
    }
}

pub proof fn lemma_blocks_from_within(lines: Seq<Seq<char>>, i: int, found: Seq<Block>)
    requires
        0 <= i,
        blocks_within(found, lines.len() as int),
    ensures
        blocks_within(blocks_from(lines, i, found), lines.len() as int),
    decreases lines.len() - i,
{
    if i < lines.len() {
        match tag_after(lines[i], block_start_prefix()) {
            Some(name) => {
                let end = block_end(lines, i, i + 1);
                lemma_block_end(lines, i, i + 1);
                let block = Block { name, start: i, end };
                let after = put_block(found, block);
                lemma_index_of_block(found, name, 0);
                assert forall|k: int| 0 <= k < after.len() implies 0 <= (#[trigger] after[k]).start
                    <= after[k].end < lines.len() by {
                    let at = index_of_block(found, name, 0);
                    if k != at && k < found.len() {
                        assert(after[k] == found[k]);
                    }
                }
                lemma_blocks_from_within(lines, end + 1, after);
            },
            None => {
                lemma_blocks_from_within(lines, i + 1, found);
            },
        }
    }
}

/// The lines without those from `start` to `end`, and without the empty
/// line just before them if there is one.
pub open spec fn lines_without(lines: Seq<Seq<char>>, start: int, end: int) -> Seq<Seq<char>> {
    let cut = lines.subrange(0, start) + lines.subrange(end + 1, lines.len() as int);
    if start > 0 && cut[start - 1].len() == 0 {
        cut.remove(start - 1)
    } else {
        cut
    }
}

/// The lines without the block of project `name`.
pub open spec fn lines_without_block(lines: Seq<Seq<char>>, name: Seq<char>) -> Seq<Seq<char>> {
    match block_of(found_blocks(lines), name) {
        Some(b) => lines_without(lines, b.start, b.end),
        None => lines,
    }
}

/// The lines with `entry` as the block of project `name`: the old block is
/// taken out and the lines of the entry are put at the end, after an empty
/// line unless the document is empty or ends with one.
pub open spec fn lines_with_entry(lines: Seq<Seq<char>>, name: Seq<char>, entry: Seq<char>) -> Seq<
    Seq<char>,
> {
    let kept = lines_without_block(lines, name);
    let spaced = if kept.len() > 0 && kept.last().len() > 0 {
        kept.push(Seq::empty())
    } else {
        kept
    };
    spaced + lines_of(entry)
}

// ---------------------------------------------------------------------------

/// One managed block: the project and the lines of its first and last line.
#[derive(Debug)]
pub struct ManagedBlock {
    pub project: String,
    pub start: usize,
    pub end: usize,
}

impl View for ManagedBlock {
    type V = Block;

    open spec fn view(&self) -> Block {
        Block { name: self.project@, start: self.start as int, end: self.end as int }
    }
}

/// The managed blocks of a document, one per project.
#[derive(Debug)]
pub struct BlockIndex {
    pub blocks: Vec<ManagedBlock>,
}

impl View for BlockIndex {
    type V = Seq<Block>;

    open spec fn view(&self) -> Seq<Block> {
        self.blocks@.map_values(|b: ManagedBlock| b@)
    }
}

impl BlockIndex {
    pub fn len(&self) -> (n: usize)
        ensures
            n == self@.len(),
    {
        self.blocks.len()
    }

    fn position(&self, name: &Vec<char>) -> (i: usize)
        ensures
            i == index_of_block(self@, name@, 0),
            i <= self@.len(),
    {
        let mut i: usize = 0;
        while i < self.blocks.len()
            invariant
                i <= self.blocks.len(),
                index_of_block(self@, name@, i as int) == index_of_block(self@, name@, 0),
            decreases self.blocks.len() - i,
        {
            let entry_name = chars_of(self.blocks[i].project.as_str());
            assert(self@[i as int].name == entry_name@);
            if same_text(&entry_name, name) {
                return i;
            }
            i += 1;
        }
        i
    }

    /// The first and the last line of the block of project `name`.
    pub fn get(&self, name: &str) -> (r: Option<(usize, usize)>)
        ensures
            match r {
                Some(range) => block_of(self@, name@) matches Some(b) && b.start == range.0 && b.end
                    == range.1,
                None => block_of(self@, name@) is None,
            },
    {
        let i = self.position(&chars_of(name));
        if i < self.blocks.len() {
            Some((self.blocks[i].start, self.blocks[i].end))
        } else {
            None
        }
    }

    fn put(&mut self, block: ManagedBlock)
        ensures
            final(self)@ == put_block(old(self)@, block@),
    {
        let i = self.position(&chars_of(block.project.as_str()));
        if i < self.blocks.len() {
            self.blocks.set(i, block);
            assert(self@ =~= put_block(old(self)@, block@));
        } else {
            self.blocks.push(block);
            assert(self@ =~= put_block(old(self)@, block@));
        }
    }
}

/// A hosts file with the index of its managed blocks. The file stands for
/// its lines: the index is what `wf` says it is, the blocks found in those
/// lines, and so no part of the view.
#[derive(Debug)]
pub struct HostsFile {
    lines: Vec<String>,
    managed_blocks: BlockIndex,
}

impl View for HostsFile {
    type V = Seq<Seq<char>>;

    closed spec fn view(&self) -> Seq<Seq<char>> {
        texts(self.lines@)
    }
}

impl HostsFile {
    /// The index is the one of the lines.
    pub closed spec fn wf(&self) -> bool {
        self.managed_blocks@ == found_blocks(texts(self.lines@))
    }

    /// The hosts file with the given text.
    pub fn load(content: &str) -> (file: Self)
        ensures
            file.wf(),
            file@ == lines_of(content@),
    {
        let lines = split_lines(&chars_of(content));
        let managed_blocks = HostsFile::find_managed_blocks(&lines);
        HostsFile { lines, managed_blocks }
    }

    /// Finds the managed blocks among the lines.
    pub fn find_managed_blocks(lines: &Vec<String>) -> (index: BlockIndex)
        ensures
            index@ == found_blocks(texts(lines@)),
            blocks_within(index@, lines@.len() as int),
    {
        let start_prefix = chars_of("# oh-my-dockers:");
        let end_line = chars_of("# oh-my-dockers: end");
        let ghost all = texts(lines@);
        let mut index = BlockIndex { blocks: Vec::new() };
        assert(index@ =~= Seq::<Block>::empty());
        let mut i: usize = 0;
        while i < lines.len()
            invariant
                i <= lines.len(),
                all == texts(lines@),
                start_prefix@ == block_start_prefix(),
                end_line@ == block_end_line(),
                blocks_from(all, i as int, index@) == found_blocks(all),
            decreases lines.len() - i,
        {
            let line = trim(&chars_of(lines[i].as_str()));
            assert(all[i as int] == lines@[i as int]@);
            if has_prefix(&line, &start_prefix) {
                let name = trim(&slice_of(&line, start_prefix.len(), line.len()));
                let mut end: usize = i;
                let mut j: usize = i + 1;
                let mut closed = false;
                while j < lines.len() && !closed
                    invariant
                        i < j <= lines.len(),
                        all == texts(lines@),
                        end_line@ == block_end_line(),
                        !closed ==> block_end(all, i as int, j as int) == block_end(
                            all,
                            i as int,
                            i + 1,
                        ),
                        closed ==> end == block_end(all, i as int, i + 1) && i < end < lines.len(),
                        !closed ==> end == i,
                    decreases lines.len() - j + (if closed { 0int } else { 1int }),
                {
                    let other = trim(&chars_of(lines[j].as_str()));
                    assert(all[j as int] == lines@[j as int]@);
                    if same_text(&other, &end_line) {
                        end = j;
                        closed = true;
                    } else {
                        j += 1;
                    }
                }
                index.put(ManagedBlock { project: string_of(&name), start: i, end });
                i = end + 1;
            } else {
                i += 1;
            }
        }
        proof {
            lemma_blocks_from_within(all, 0, Seq::empty());
        }
        index
    }

    /// Whether project `project` has a block.
    pub fn has_project(&self, project: &str) -> (b: bool)
        requires
            self.wf(),
        ensures
            b == block_of(found_blocks(self@), project@).is_some(),
    {
        self.managed_blocks.get(project).is_some()
    }

    /// Takes out the block of project `project`. Does nothing when the
    /// project has no block.
    pub fn remove_entry(&mut self, project: &str)
        requires
            old(self).wf(),
        ensures
            final(self).wf(),
            final(self)@ == lines_without_block(old(self)@, project@),
    {
        let ghost all = texts(self.lines@);
        proof {
            lemma_blocks_from_within(all, 0, Seq::empty());
        }
        match self.managed_blocks.get(project) {
            Some((start, end)) => {
                proof {
                    lemma_index_of_block(found_blocks(all), project@, 0);
                }
                let mut kept: Vec<String> = Vec::new();
                let mut i: usize = 0;
                while i < start
                    invariant
                        i <= start <= end < self.lines.len(),
                        all == texts(self.lines@),
                        texts(kept@) == all.subrange(0, i as int),
                    decreases start - i,
                {
                    let line = self.lines[i].clone();
                    assert(line@ == all[i as int]);
                    assert(texts(kept@.push(line)) =~= texts(kept@).push(line@));
                    assert(all.subrange(0, i + 1) =~= all.subrange(0, i as int).push(line@));
                    kept.push(line);
                    i += 1;
                }
                let mut j: usize = end + 1;
                while j < self.lines.len()
                    invariant
                        start <= end < j <= self.lines.len(),
                        all == texts(self.lines@),
                        texts(kept@) == all.subrange(0, start as int) + all.subrange(
                            end + 1,
                            j as int,
                        ),
                    decreases self.lines.len() - j,
                {
                    let line = self.lines[j].clone();
                    assert(line@ == all[j as int]);
                    assert(texts(kept@.push(line)) =~= texts(kept@).push(line@));
                    assert(all.subrange(0, start as int) + all.subrange(end + 1, j + 1) =~= (
                    all.subrange(0, start as int) + all.subrange(end + 1, j as int)).push(line@));
                    kept.push(line);
                    j += 1;
                }
                if start > 0 && start <= kept.len() && kept[start - 1].as_str().unicode_len() == 0 {
                    assert(texts(kept@)[start - 1] == kept@[start - 1]@);
                    let ghost before = texts(kept@);
                    kept.remove(start - 1);
                    assert(texts(kept@) =~= before.remove(start - 1));
                } else {
                    if start > 0 && start <= kept.len() {
                        assert(texts(kept@)[start - 1] == kept@[start - 1]@);
                    }
                }
                let managed_blocks = HostsFile::find_managed_blocks(&kept);
                self.lines = kept;
                self.managed_blocks = managed_blocks;
            },
            None => {},
        }
    }

    /// Puts `entry` in as the block of project `project`, in the place of
    /// the block that the project had.
    pub fn add_entry(&mut self, project: &str, entry: &str)
        requires
            old(self).wf(),
        ensures
            final(self).wf(),
            final(self)@ == lines_with_entry(old(self)@, project@, entry@),
    {
        self.remove_entry(project);
        let ghost kept = texts(self.lines@);
        let mut lines: Vec<String> = crate::plan::copy_texts(&self.lines);
        if lines.len() > 0 && lines[lines.len() - 1].as_str().unicode_len() > 0 {
            let blank = String::new();
            assert(texts(lines@.push(blank)) =~= texts(lines@).push(blank@));
            lines.push(blank);
        }
        assert(kept.len() > 0 ==> kept.last() == self.lines@[self.lines@.len() - 1]@);
        let ghost spaced = texts(lines@);
        let added = split_lines(&chars_of(entry));
        let mut k: usize = 0;
        while k < added.len()
            invariant
                k <= added.len(),
                texts(lines@) == spaced + texts(added@).subrange(0, k as int),
            decreases added.len() - k,
        {
            let line = added[k].clone();
            assert(line@ == texts(added@)[k as int]);
            assert(texts(lines@.push(line)) =~= texts(lines@).push(line@));
            assert(spaced + texts(added@).subrange(0, k + 1) =~= (spaced + texts(added@).subrange(
                0,
                k as int,
            )).push(line@));
            lines.push(line);
            k += 1;
        }
        assert(texts(added@).subrange(0, added.len() as int) =~= texts(added@));
        let managed_blocks = HostsFile::find_managed_blocks(&lines);
        self.lines = lines;
        self.managed_blocks = managed_blocks;
    }

    /// The projects that have a block, in ascending order.
    pub fn list_managed_projects(&self) -> (projects: Vec<String>)
        requires
            self.wf(),
        ensures
            projects@.len() == found_blocks(self@).len(),
            exists|order: Seq<usize>|
                {
                    &&& is_arrangement(order, found_blocks(self@).len() as int)
                    &&& ascending(block_names(found_blocks(self@)), order)
                    &&& forall|k: int|
                        0 <= k < projects@.len() ==> (#[trigger] projects@[k])@ == found_blocks(
                            self@,
                        )[order[k] as int].name
                },
    {
        let ghost blocks = found_blocks(self@);
        let mut names: Vec<Vec<char>> = Vec::new();
        let mut i: usize = 0;
        while i < self.managed_blocks.blocks.len()
            invariant
                i <= self.managed_blocks.blocks.len(),
                self.managed_blocks@ == blocks,
                rows(names@) == block_names(blocks).subrange(0, i as int),
            decreases self.managed_blocks.blocks.len() - i,
        {
            let name = chars_of(self.managed_blocks.blocks[i].project.as_str());
            assert(blocks[i as int].name == name@);
            assert(rows(names@.push(name)) =~= rows(names@).push(name@));
            assert(block_names(blocks).subrange(0, i + 1) =~= block_names(blocks).subrange(
                0,
                i as int,
            ).push(name@));
            names.push(name);
            i += 1;
        }
        assert(block_names(blocks).subrange(0, blocks.len() as int) =~= block_names(blocks));
        let order = sorted_order(&names);
        let mut projects: Vec<String> = Vec::new();
        let mut k: usize = 0;
        while k < order.len()
            invariant
                k <= order.len(),
                order@.len() == names@.len(),
                names@.len() == blocks.len(),
                rows(names@) == block_names(blocks),
                is_arrangement(order@, blocks.len() as int),
                projects@.len() == k,
                forall|j: int|
                    0 <= j < k ==> (#[trigger] projects@[j])@ == blocks[order@[j] as int].name,
            decreases order.len() - k,
        {
            let at = order[k];
            assert(rows(names@)[at as int] == names@[at as int]@);
            projects.push(string_of(&names[at]));
            k += 1;
        }
        projects
    }

    /// The text of the file.
    pub fn to_string(&self) -> (text: String)
        ensures
            text@ == content_of(self@),
    {
        join_lines(&self.lines)
    }
}

pub open spec fn block_names(blocks: Seq<Block>) -> Seq<Seq<char>> {
    blocks.map_values(|b: Block| b.name)
}

} // verus!

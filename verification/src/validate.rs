//! Checking the text of a hosts file before it is put in place.
use crate::text::{
    chars_of, is_blank, lines_of, no_char, scan_spaces, scan_word, skip_spaces, skip_word,
    slice_of, split_lines, string_of, texts, trim, trimmed,
};
use vstd::prelude::*;

verus! {

/// What is wrong with a hosts file.
pub ghost enum Fault {
    /// The file holds nothing.
    Empty,
    /// A line has an address and nothing else.
    Format(Seq<char>),
    /// A line begins with something that is no address.
    Address(Seq<char>),
}

/// What is wrong with a hosts file.
#[derive(Debug)]
pub enum HostsFault {
    /// The file holds nothing.
    Empty,
    /// A line has an address and nothing else. Holds the line.
    Format(String),
    /// A line begins with something that is no address. Holds what it
    /// begins with.
    Address(String),
}

impl View for HostsFault {
    type V = Fault;

    open spec fn view(&self) -> Fault {
        match self {
            HostsFault::Empty => Fault::Empty,
            HostsFault::Format(l) => Fault::Format(l@),
            HostsFault::Address(a) => Fault::Address(a@),
        }
    }
}

/// The fault in words.
pub open spec fn fault_text(fault: Fault) -> Seq<char> {
    match fault {
        Fault::Empty => "Generated hosts file is empty"@,
        Fault::Format(line) => "Invalid hosts file format: "@ + line,
        Fault::Address(address) => "Invalid IP address: "@ + address,
    }
}

impl HostsFault {
    /// The fault in words.
    pub fn message(&self) -> (text: String)
        ensures
            text@ == fault_text(self@),
    {
        match self {
            HostsFault::Empty => "Generated hosts file is empty".to_owned(),
            HostsFault::Format(line) => {
                let mut out = chars_of("Invalid hosts file format: ");
                crate::text::extend_chars(&mut out, &chars_of(line.as_str()));
                string_of(&out)
            },
            HostsFault::Address(address) => {
                let mut out = chars_of("Invalid IP address: ");
                crate::text::extend_chars(&mut out, &chars_of(address.as_str()));
                string_of(&out)
            },
        }
    }
}

/// What is wrong with a line, if anything. A line that is blank or a
/// comment is in order. Any other line must hold at least two words, and
/// the first must look like an address: it holds a `.` or a `:`.
pub open spec fn line_fault(line: Seq<char>) -> Option<Fault> {
    let t = trimmed(line);
    if t.len() == 0 || t[0] == '#' {
        None
    } else {
        let end = skip_word(t, 0);
        let next = skip_spaces(t, end);
        let first = t.subrange(0, end);
        if next >= t.len() {
            Some(Fault::Format(line))
        } else if no_char(first, '.') && no_char(first, ':') {
            Some(Fault::Address(first))
        } else {
            None
        }
    }
}

/// The fault of the first line at or after `from` that has one.
pub open spec fn first_fault(lines: Seq<Seq<char>>, from: int) -> Option<Fault>
    decreases lines.len() - from,
{
    if 0 <= from < lines.len() {
        match line_fault(lines[from]) {
            Some(f) => Some(f),
            None => first_fault(lines, from + 1),
        }
    } else {
        None
    }
}

/// What is wrong with the text of a hosts file, if anything.
pub open spec fn content_fault(content: Seq<char>) -> Option<Fault> {
    if is_blank(content) {
        Some(Fault::Empty)
    } else {
        first_fault(lines_of(content), 0)
    }
}

fn has_char(s: &Vec<char>, c: char) -> (b: bool)
    ensures
        b == !no_char(s@, c),
{
    let mut i: usize = 0;
    while i < s.len()
        invariant
            i <= s.len(),
            forall|k: int| 0 <= k < i ==> s@[k] != c,
        decreases s.len() - i,
    {
        if s[i] == c {
            return true;
        }
        i += 1;
    }
    false
}

/// Checks the text of a hosts file: it must not be empty, and every line
/// that is neither blank nor a comment must bind at least one name to
/// something that looks like an address.
pub fn validate_hosts_content(content: &str) -> (r: Result<(), HostsFault>)
    ensures
        match r {
            Ok(_) => content_fault(content@) is None,
            Err(f) => content_fault(content@) == Some(f@),
        },
{
    let chars = chars_of(content);
    if trim(&chars).len() == 0 {
        return Err(HostsFault::Empty);
    }
    let lines = split_lines(&chars);
    let ghost all = texts(lines@);
    let mut i: usize = 0;
    while i < lines.len()
        invariant
            i <= lines.len(),
            all == texts(lines@),
            all == lines_of(content@),
            !is_blank(content@),
            first_fault(all, i as int) == first_fault(all, 0),
        decreases lines.len() - i,
    {
        assert(all[i as int] == lines@[i as int]@);
        let t = trim(&chars_of(lines[i].as_str()));
        if t.len() > 0 && t[0] != '#' {
            let end = scan_word(&t, 0);
            let next = scan_spaces(&t, end);
            let first = slice_of(&t, 0, end);
            if next >= t.len() {
                return Err(HostsFault::Format(lines[i].clone()));
            }
            if !has_char(&first, '.') && !has_char(&first, ':') {
                return Err(HostsFault::Address(string_of(&first)));
            }
        }
        i += 1;
    }
    Ok(())
}

} // verus!

//! The progress report: how a line of it is laid out as text.

use crate::model::Note;
use crate::search::Trace;
use vstd::prelude::*;
use vstd::string::StringExecFns;

verus! {

/// Two dashes for each level of depth.
pub open spec fn dashes(depth: nat) -> Seq<char>
    decreases depth,
{
    if depth == 0 {
        Seq::empty()
    } else {
        dashes((depth - 1) as nat) + seq!['-', '-']
    }
}

/// The margin of a line: a bar, then two dashes for each level of depth.
pub open spec fn indent_text(depth: nat) -> Seq<char> {
    seq!['|'] + dashes(depth)
}

/// The text of a progress line.
pub open spec fn line_text(note: Note) -> Seq<char> {
    match note {
        Note::Directory { depth, path } => indent_text(depth) + "searching directory: "@ + path,
        Note::Matched { depth, name } => indent_text(depth) + "[*] matched: "@ + name,
        Note::Checked { depth, name } => indent_text(depth) + "[-] checked: "@ + name,
    }
}

/// Lays out the margin for a line at the given depth.
pub fn indent(depth: usize) -> (margin: String)
    ensures
        margin@ == indent_text(depth as nat),
{
    let mut margin = String::from_str("|");
    proof {
        reveal_strlit("|");
        assert(margin@ =~= indent_text(0));
    }
    let mut level: usize = 0;
    while level < depth
        invariant
            level <= depth,
            margin@ == indent_text(level as nat),
        decreases depth - level,
    {
        margin.append("--");
        level += 1;
        proof {
            reveal_strlit("--");
            assert("--"@ =~= seq!['-', '-']);
            assert(margin@ =~= indent_text(level as nat));
        }
    }
    margin
}

/// Lays out a progress line: the margin for its depth, what happened, and
/// the path or name it happened to.
pub fn render(trace: &Trace) -> (line: String)
    ensures
        line@ == line_text(trace@),
{
    match trace {
        Trace::Directory { depth, path } => {
            indent(*depth).concat("searching directory: ").concat(path.as_str())
        },
        Trace::Matched { depth, name } => {
            indent(*depth).concat("[*] matched: ").concat(name.as_str())
        },
        Trace::Checked { depth, name } => {
            indent(*depth).concat("[-] checked: ").concat(name.as_str())
        },
    }
}

} // verus!

//! Reading what a device has kept of an incident.

use vstd::prelude::*;

use crate::text::basic::texts;
use crate::text::search::blank;
use crate::text::search::contains;
use crate::text::search::has;
use crate::text::search::is_blank;
use crate::text::search::trim;
use crate::text::search::trimmed;
use crate::text::split::join;
use crate::text::split::joined;
use crate::text::split::lines_of;
use crate::text::split::split_lines;

verus! {

/// The command that prints the records of a kind.
pub fn dropbox_command(kind: &str) -> (r: String)
    ensures
        r@ == "dumpsys dropbox --print "@ + kind@,
{
    let mut out = "dumpsys dropbox --print ".to_string();
    out.append(kind);
    out
}

/// At most the first `n` of some texts.
pub open spec fn at_most(s: Seq<Seq<char>>, n: int) -> Seq<Seq<char>> {
    if s.len() <= n {
        s
    } else {
        s.take(n)
    }
}

/// What is kept of printed records: nothing of blank output, else the first 400 lines.
pub open spec fn excerpt_of(out: Seq<char>) -> Seq<char> {
    if blank(out) {
        seq![]
    } else {
        joined(at_most(lines_of(out), 400), "\n"@)
    }
}

/// What is kept of printed records, so that a report does not grow too large.
pub fn dropbox_excerpt(out: &str) -> (r: String)
    ensures
        r@ == excerpt_of(out@),
{
    if is_blank(out) {
        let e = String::new();
        assert(e@ =~= seq![]);
        return e;
    }
    let mut lines = split_lines(out);
    let ghost all = texts(lines@);
    if lines.len() > 400 {
        lines.truncate(400);
        assert(texts(lines@) =~= all.take(400));
    }
    join(&lines, "\n")
}

/// The command that prints a file.
pub fn cat_command(path: &str) -> (r: String)
    ensures
        r@ == "cat "@ + path@,
{
    let mut out = "cat ".to_string();
    out.append(path);
    out
}

/// A file was printed, and not a complaint about it.
pub open spec fn printed_file(out: Seq<char>) -> Seq<char> {
    if has(out, "Permission denied"@) || has(out, "No such file"@) {
        seq![]
    } else {
        out
    }
}

/// What a command that prints a file says of the file: nothing where it complains.
pub fn file_text(out: &str) -> (r: String)
    ensures
        r@ == printed_file(out@),
{
    if contains(out, "Permission denied") || contains(out, "No such file") {
        let e = String::new();
        assert(e@ =~= seq![]);
        e
    } else {
        out.to_string()
    }
}

/// The first file of a listing, without white space around it.
pub open spec fn newest_file(list: Seq<char>) -> Option<Seq<char>> {
    let lines = lines_of(list);
    if lines.len() == 0 {
        None
    } else {
        Some(trimmed(lines[0]))
    }
}

/// The trace to read, by a listing of the newest first: none where the listing is blank or a
/// complaint, or where its first line is blank.
pub open spec fn anr_trace(list: Seq<char>) -> Option<Seq<char>> {
    if blank(list) || has(list, "Permission denied"@) {
        None
    } else {
        match newest_file(list) {
            Some(f) => if f.len() > 0 {
                Some("/data/anr/"@ + f)
            } else {
                None
            },
            None => None,
        }
    }
}

/// The trace to read, by a listing of the newest first.
pub fn anr_trace_path(list: &str) -> (r: Option<String>)
    ensures
        crate::monitor::line::option_text(r) == anr_trace(list@),
{
    if is_blank(list) || contains(list, "Permission denied") {
        return None;
    }
    let lines = split_lines(list);
    assert(texts(lines@).len() == lines@.len());
    if lines.len() == 0 {
        return None;
    }
    assert(texts(lines@)[0] == lines@[0]@);
    let first = trim(lines[0].as_str());
    if crate::model::node::is_empty(&first) {
        return None;
    }
    let mut out = "/data/anr/".to_string();
    out.append(first.as_str());
    Some(out)
}

/// The record of a native crash to read, by a listing of the newest first.
pub open spec fn tombstone(list: Seq<char>) -> Option<Seq<char>> {
    match newest_file(list) {
        Some(f) => Some("/data/tombstones/"@ + f),
        None => None,
    }
}

/// The record of a native crash to read, by a listing of the newest first.
pub fn tombstone_path(list: &str) -> (r: Option<String>)
    ensures
        crate::monitor::line::option_text(r) == tombstone(list@),
{
    let lines = split_lines(list);
    assert(texts(lines@).len() == lines@.len());
    if lines.len() == 0 {
        return None;
    }
    assert(texts(lines@)[0] == lines@[0]@);
    let mut out = "/data/tombstones/".to_string();
    out.append(trim(lines[0].as_str()).as_str());
    Some(out)
}

} // verus!

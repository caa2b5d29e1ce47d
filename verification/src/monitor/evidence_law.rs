//! What is kept of what a device prints about an incident, and which files are read.

use vstd::prelude::*;

use crate::monitor::evidence::anr_trace;
use crate::monitor::evidence::excerpt_of;
use crate::monitor::evidence::printed_file;
use crate::monitor::evidence::tombstone;
use crate::text::law::is_word;
use crate::text::law::lemma_lines_are_read_back;
use crate::text::search::blank;
use crate::text::search::has;
use crate::text::search::lemma_trim_front;
use crate::text::search::trim_front;
use crate::text::search::trimmed;
use crate::text::split::joined;
use crate::text::split::lines_of;

verus! {

/// Lines as a device prints them: none holds a line end, and the last is not empty.
pub open spec fn printed_lines(ls: Seq<Seq<char>>) -> bool {
    &&& ls.len() > 0
    &&& ls.last().len() > 0
    &&& forall|i: int|
        0 <= i < ls.len() ==> !(#[trigger] ls[i]).contains('\n') && (ls[i].len() > 0
            ==> ls[i].last() != '\r')
}

/// Of records up to 400 lines all are kept, and of more the first 400; blank output is nothing.
pub proof fn lemma_what_is_kept_of_records(ls: Seq<Seq<char>>, out: Seq<char>)
    requires
        printed_lines(ls),
        ls.len() > 400 ==> ls[399].len() > 0,
    ensures
        blank(out) ==> excerpt_of(out).len() == 0,
        !blank(joined(ls, "\n"@)) && ls.len() <= 400 ==> excerpt_of(joined(ls, "\n"@)) == joined(
            ls,
            "\n"@,
        ),
        !blank(joined(ls, "\n"@)) && ls.len() > 400 ==> lines_of(excerpt_of(joined(ls, "\n"@)))
            == ls.take(400),
{
    lemma_lines_are_read_back(ls);
    if ls.len() > 400 {
        let t = ls.take(400);
        assert(t.last() == ls[399]);
        assert forall|i: int| 0 <= i < t.len() implies !(#[trigger] t[i]).contains('\n') && (
        t[i].len() > 0 ==> t[i].last() != '\r') by {
            assert(t[i] == ls[i]);
        }
        lemma_lines_are_read_back(t);
    }
}

/// A file that cannot be read says nothing; another says what was printed.
pub proof fn lemma_what_a_file_says(out: Seq<char>)
    ensures
        has(out, "Permission denied"@) || has(out, "No such file"@) ==> printed_file(out).len()
            == 0,
        !(has(out, "Permission denied"@)) && !(has(out, "No such file"@)) ==> printed_file(out)
            == out,
{
}

proof fn lemma_word_is_trimmed(w: Seq<char>)
    requires
        is_word(w),
    ensures
        trimmed(w) == w,
{
    lemma_trim_front(w);
    assert(trim_front(w) == w);
}

/// The newest of the files that are listed is read, in the directory of its kind; a listing that is
/// a complaint names none of the traces.
pub proof fn lemma_newest_file_is_read(names: Seq<Seq<char>>)
    requires
        printed_lines(names),
        is_word(names[0]),
        !blank(joined(names, "\n"@)),
    ensures
        ({
            let list = joined(names, "\n"@);
            &&& has(list, "Permission denied"@) ==> anr_trace(list) is None
            &&& !(has(list, "Permission denied"@)) ==> anr_trace(list) == Some(
                "/data/anr/"@ + names[0],
            )
            &&& tombstone(list) == Some("/data/tombstones/"@ + names[0])
        }),
{
    lemma_lines_are_read_back(names);
    lemma_word_is_trimmed(names[0]);
}

/// A blank listing names no trace.
pub proof fn lemma_blank_listing_names_nothing(list: Seq<char>)
    requires
        blank(list),
    ensures
        anr_trace(list) is None,
{
}

} // verus!

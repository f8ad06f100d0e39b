use vstd::prelude::*;

use crate::text::{header_line, is_header_for, looks_like_header, setting_of};
use crate::text::{is_header_line, is_inert_line, parse_key_value, same_text, trim_quotes, trim_text};

verus! {

/// The lines of a document, as character sequences.
pub open spec fn doc_view(lines: Seq<String>) -> Seq<Seq<char>> {
    lines.map_values(|l: String| l@)
}

/// The key of the setting that a line holds, if any.
pub open spec fn setting_key(line: Seq<char>) -> Option<Seq<char>> {
    match setting_of(line) {
        Some((k, v)) => Some(k),
        None => None,
    }
}

/// The first line at or after `i` that opens the section `name`.
pub open spec fn header_from(doc: Seq<Seq<char>>, name: Seq<char>, i: int) -> Option<int>
    decreases doc.len() - i,
{
    if i < 0 || i >= doc.len() {
        None
    } else if is_header_for(doc[i], name) {
        Some(i)
    } else {
        header_from(doc, name, i + 1)
    }
}

/// Where the section `name` starts: its first header.
pub open spec fn section_start(doc: Seq<Seq<char>>, name: Seq<char>) -> Option<int> {
    header_from(doc, name, 0)
}

/// The first line at or after `j` that looks like any header, else the line count.
pub open spec fn end_from(doc: Seq<Seq<char>>, j: int) -> int
    decreases doc.len() - j,
{
    if j >= doc.len() {
        doc.len() as int
    } else if looks_like_header(doc[j]) {
        j
    } else {
        end_from(doc, j + 1)
    }
}

/// The exclusive end of the section that starts at `start`.
pub open spec fn section_end(doc: Seq<Seq<char>>, start: int) -> int {
    end_from(doc, start + 1)
}

/// The first line in `[i, end)` that sets `key`.
pub open spec fn setting_from(doc: Seq<Seq<char>>, key: Seq<char>, i: int, end: int) -> Option<
    int,
>
    decreases end - i,
{
    if i < 0 || i >= end || i >= doc.len() {
        None
    } else if setting_key(doc[i]) == Some(key) {
        Some(i)
    } else {
        setting_from(doc, key, i + 1, end)
    }
}

/// The line that sets `key` in the section that starts at `start`.
pub open spec fn setting_index(doc: Seq<Seq<char>>, start: int, key: Seq<char>) -> Option<int> {
    setting_from(doc, key, start + 1, section_end(doc, start))
}

/// What `header_from` finds: a header for `name`, with none before it.
pub proof fn lemma_header_from(doc: Seq<Seq<char>>, name: Seq<char>, i: int)
    requires
        0 <= i,
    ensures
        match header_from(doc, name, i) {
            Some(k) => i <= k < doc.len() && is_header_for(doc[k], name) && forall|j: int|
                i <= j < k ==> !is_header_for(#[trigger] doc[j], name),
            None => forall|j: int| i <= j < doc.len() ==> !is_header_for(#[trigger] doc[j], name),
        },
    decreases doc.len() - i,
{
    if i < doc.len() && !is_header_for(doc[i], name) {
        lemma_header_from(doc, name, i + 1);
    }
}

/// `header_from` is fixed by the lines it scans.
pub proof fn lemma_header_from_is(doc: Seq<Seq<char>>, name: Seq<char>, i: int, k: int)
    requires
        0 <= i <= k < doc.len(),
        is_header_for(doc[k], name),
        forall|j: int| i <= j < k ==> !is_header_for(#[trigger] doc[j], name),
    ensures
        header_from(doc, name, i) == Some(k),
    decreases k - i,
{
    if i < k {
        lemma_header_from_is(doc, name, i + 1, k);
    }
}

/// What `end_from` finds: a header-like line, or the end, with none before it.
pub proof fn lemma_end_from(doc: Seq<Seq<char>>, j: int)
    ensures
        j <= doc.len() ==> j <= end_from(doc, j),
        end_from(doc, j) <= doc.len(),
        j > doc.len() ==> end_from(doc, j) == doc.len(),
        end_from(doc, j) < doc.len() ==> looks_like_header(doc[end_from(doc, j)]),
        forall|k: int| j <= k < end_from(doc, j) ==> !looks_like_header(#[trigger] doc[k]),
    decreases doc.len() - j,
{
    if j < doc.len() && !looks_like_header(doc[j]) {
        lemma_end_from(doc, j + 1);
    }
}

/// `end_from` is fixed by the lines it scans.
pub proof fn lemma_end_from_is(doc: Seq<Seq<char>>, j: int, e: int)
    requires
        j <= e <= doc.len(),
        e < doc.len() ==> looks_like_header(doc[e]),
        forall|k: int| j <= k < e ==> !looks_like_header(#[trigger] doc[k]),
    ensures
        end_from(doc, j) == e,
    decreases e - j,
{
    if j < e {
        lemma_end_from_is(doc, j + 1, e);
    }
}

/// What `setting_from` finds: a line that sets `key`, with none before it.
pub proof fn lemma_setting_from(doc: Seq<Seq<char>>, key: Seq<char>, i: int, end: int)
    requires
        0 <= i,
        end <= doc.len(),
    ensures
        match setting_from(doc, key, i, end) {
            Some(k) => i <= k < end && setting_key(doc[k]) == Some(key) && forall|j: int|
                i <= j < k ==> setting_key(#[trigger] doc[j]) != Some(key),
            None => forall|j: int| i <= j < end ==> setting_key(#[trigger] doc[j]) != Some(key),
        },
    decreases end - i,
{
    if i < end && setting_key(doc[i]) != Some(key) {
        lemma_setting_from(doc, key, i + 1, end);
    }
}

/// `setting_from` is fixed by the lines it scans.
pub proof fn lemma_setting_from_is(doc: Seq<Seq<char>>, key: Seq<char>, i: int, k: int, end: int)
    requires
        0 <= i <= k < end <= doc.len(),
        setting_key(doc[k]) == Some(key),
        forall|j: int| i <= j < k ==> setting_key(#[trigger] doc[j]) != Some(key),
    ensures
        setting_from(doc, key, i, end) == Some(k),
    decreases k - i,
{
    if i < k {
        lemma_setting_from_is(doc, key, i + 1, k, end);
    }
}

/// The header line `[name]` as a string.
pub fn make_header(name: &str) -> (r: String)
    ensures
        r@ == header_line(name@),
{
    let mut h = String::from_str("[");
    h.append(name);
    h.append("]");
    proof {
        reveal_strlit("[");
        reveal_strlit("]");
        assert(h@ =~= header_line(name@));
    }
    h
}

/// Index of the first line that, trimmed, is exactly `[name]`.
pub fn find_section_start(lines: &Vec<String>, name: &str) -> (r: Option<usize>)
    ensures
        match r {
            Some(i) => section_start(doc_view(lines@), name@) == Some(i as int),
            None => section_start(doc_view(lines@), name@) is None,
        },
{
    let ghost doc = doc_view(lines@);
    let header = make_header(name);
    let mut i: usize = 0;
    while i < lines.len()
        invariant
            i <= lines.len(),
            doc == doc_view(lines@),
            header@ == header_line(name@),
            header_from(doc, name@, 0) == header_from(doc, name@, i as int),
        decreases lines.len() - i,
    {
        if same_text(trim_text(lines[i].as_str()), header.as_str()) {
            return Some(i);
        }
        i = i + 1;
    }
    None
}

/// Exclusive end of the section whose header is at `start`: the next line that
/// looks like any header, or the line count.
pub fn find_section_end(lines: &Vec<String>, start: usize) -> (r: usize)
    ensures
        r == section_end(doc_view(lines@), start as int),
{
    let ghost doc = doc_view(lines@);
    if start >= lines.len() {
        return lines.len();
    }
    let mut i: usize = start + 1;
    while i < lines.len()
        invariant
            start < i <= lines.len(),
            doc == doc_view(lines@),
            section_end(doc, start as int) == end_from(doc, i as int),
        decreases lines.len() - i,
    {
        if is_header_line(lines[i].as_str()) {
            return i;
        }
        i = i + 1;
    }
    lines.len()
}

/// The line inside the section at `section_start` that sets `key`, with its
/// value trimmed and without quotes. Blank and comment lines are skipped.
pub fn find_setting_in_section(lines: &Vec<String>, section_start: usize, key: &str) -> (r: Option<
    (usize, String),
>)
    ensures
        match r {
            Some((i, v)) => setting_index(doc_view(lines@), section_start as int, key@) == Some(
                i as int,
            ) && setting_of(doc_view(lines@)[i as int]) == Some((key@, v@)),
            None => setting_index(doc_view(lines@), section_start as int, key@) is None,
        },
{
    let ghost doc = doc_view(lines@);
    let end = find_section_end(lines, section_start);
    proof {
        lemma_end_from(doc, section_start + 1);
    }
    if section_start >= end {
        return None;
    }
    let mut i: usize = section_start + 1;
    while i < end
        invariant
            section_start < i <= end <= lines.len(),
            doc == doc_view(lines@),
            end == section_end(doc, section_start as int),
            setting_index(doc, section_start as int, key@) == setting_from(
                doc,
                key@,
                i as int,
                end as int,
            ),
        decreases end - i,
    {
        let line = lines[i].as_str();
        if !is_inert_line(line) {
            match parse_key_value(line) {
                Some((k, v)) => {
                    if same_text(k, key) {
                        let value = trim_quotes(v).to_owned();
                        return Some((i, value));
                    }
                },
                None => {},
            }
        }
        i = i + 1;
    }
    None
}

} // verus!

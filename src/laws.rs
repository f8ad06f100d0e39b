use vstd::prelude::*;

use crate::document::{
    lemma_end_from, lemma_end_from_is, lemma_header_from, lemma_header_from_is,
    lemma_setting_from, lemma_setting_from_is, section_end, section_start, setting_index,
    setting_key,
};
use crate::sync::{library_entry, synced, with_library, with_separator};
use crate::text::{
    header_line, is_first_index, is_header_for, is_inert, is_ws, key_value,
    lemma_first_index_unique, looks_like_header, setting_of, strip_end, strip_pred, strip_start,
    trimmed, unquoted,
};

verus! {

proof fn lemma_header_looks(line: Seq<char>, name: Seq<char>)
    requires
        is_header_for(line, name),
    ensures
        looks_like_header(line),
{
    let h = header_line(name);
    assert(h[0] == '[');
    assert(h.last() == ']');
}

proof fn lemma_header_line_trimmed(name: Seq<char>)
    ensures
        is_header_for(header_line(name), name),
{
    let h = header_line(name);
    assert(h[0] == '[');
    assert(h.last() == ']');
    assert(trimmed(h) == h);
}

proof fn lemma_empty_line()
    ensures
        forall|name: Seq<char>| !is_header_for(Seq::<char>::empty(), name),
        !looks_like_header(Seq::<char>::empty()),
        is_inert(Seq::<char>::empty()),
{
    let e = Seq::<char>::empty();
    assert(trimmed(e) == e);
    assert forall|name: Seq<char>| !is_header_for(e, name) by {
        assert(header_line(name).len() >= 2);
    }
}

/// A line that sets a key is neither blank nor a comment.
pub proof fn lemma_setting_not_inert(line: Seq<char>)
    requires
        setting_key(line) is Some,
    ensures
        !is_inert(line),
{
}

/// Where the section is found, the targeted line lies inside it, after its
/// header, and holds a setting for `key`.
proof fn lemma_located(doc: Seq<Seq<char>>, name: Seq<char>, key: Seq<char>)
    requires
        section_start(doc, name) is Some,
    ensures
        ({
            let s = section_start(doc, name).unwrap();
            let e = section_end(doc, s);
            &&& 0 <= s < e <= doc.len()
            &&& is_header_for(doc[s], name)
            &&& forall|j: int| 0 <= j < s ==> !is_header_for(#[trigger] doc[j], name)
            &&& e < doc.len() ==> looks_like_header(doc[e])
            &&& forall|k: int| s < k < e ==> !looks_like_header(#[trigger] doc[k])
            &&& match setting_index(doc, s, key) {
                Some(i) => s < i < e && setting_key(doc[i]) == Some(key) && forall|j: int|
                    s < j < i ==> setting_key(#[trigger] doc[j]) != Some(key),
                None => forall|j: int| s < j < e ==> setting_key(#[trigger] doc[j]) != Some(key),
            }
        }),
{
    lemma_header_from(doc, name, 0);
    let s = section_start(doc, name).unwrap();
    lemma_end_from(doc, s + 1);
    lemma_setting_from(doc, key, s + 1, section_end(doc, s));
}

/// Synchronizing twice with the same arguments gives the same document as
/// synchronizing once, for a line `text` that sets `key` and is no header.
pub proof fn lemma_idempotent(doc: Seq<Seq<char>>, name: Seq<char>, key: Seq<char>, text: Seq<char>)
    requires
        setting_key(text) == Some(key),
        !looks_like_header(text),
    ensures
        synced(synced(doc, name, key, text), name, key, text) == synced(doc, name, key, text),
{
    let r = synced(doc, name, key, text);
    if !is_header_for(text, name) {
    } else {
        lemma_header_looks(text, name);
    }
    lemma_empty_line();
    match section_start(doc, name) {
        None => {
            lemma_header_from(doc, name, 0);
            let w = with_separator(doc);
            let p = w.len() as int;
            lemma_header_line_trimmed(name);
            assert forall|j: int| 0 <= j < p implies !is_header_for(#[trigger] r[j], name) by {
                if j < doc.len() {
                    assert(r[j] == doc[j]);
                } else {
                    assert(r[j] == Seq::<char>::empty());
                }
            }
            lemma_header_from_is(r, name, 0, p);
            lemma_end_from_is(r, p + 1, p + 2);
            lemma_setting_from_is(r, key, p + 1, p + 1, p + 2);
            assert(r.update(p + 1, text) =~= r);
        },
        Some(s) => {
            lemma_located(doc, name, key);
            let e = section_end(doc, s);
            match setting_index(doc, s, key) {
                Some(i) => {
                    lemma_header_from_is(r, name, 0, s);
                    assert forall|k: int| s + 1 <= k < e implies !looks_like_header(
                        #[trigger] r[k],
                    ) by {
                        if k != i {
                            assert(r[k] == doc[k]);
                        }
                    }
                    lemma_end_from_is(r, s + 1, e);
                    lemma_setting_from_is(r, key, s + 1, i, e);
                    assert(r.update(i, text) =~= r);
                },
                None => {
                    doc.insert_ensures(e, text);
                    lemma_header_from_is(r, name, 0, s);
                    assert forall|k: int| s + 1 <= k < e + 1 implies !looks_like_header(
                        #[trigger] r[k],
                    ) by {
                        if k < e {
                            assert(r[k] == doc[k]);
                        }
                    }
                    if e < doc.len() {
                        assert(r[e + 1] == doc[e]);
                    }
                    lemma_end_from_is(r, s + 1, e + 1);
                    assert forall|j: int| s + 1 <= j < e implies setting_key(#[trigger] r[j])
                        != Some(key) by {
                        assert(r[j] == doc[j]);
                    }
                    lemma_setting_from_is(r, key, s + 1, e, e + 1);
                    assert(r.update(e, text) =~= r);
                },
            }
        },
    }
}

/// Where the section is missing, it is appended after the whole document,
/// after one blank line when the document is not empty and does not end with
/// an empty line, and `text` stands right below its header.
pub proof fn lemma_section_created(
    doc: Seq<Seq<char>>,
    name: Seq<char>,
    key: Seq<char>,
    text: Seq<char>,
)
    requires
        section_start(doc, name) is None,
    ensures
        ({
            let r = synced(doc, name, key, text);
            let p = if doc.len() > 0 && doc.last().len() > 0 {
                (doc.len() + 1) as int
            } else {
                doc.len() as int
            };
            &&& r.len() == p + 2
            &&& r.subrange(0, doc.len() as int) == doc
            &&& p == doc.len() + 1 ==> r[doc.len() as int] == Seq::<char>::empty()
            &&& r[p] == header_line(name)
            &&& r[p + 1] == text
            &&& section_start(r, name) == Some(p)
        }),
{
    let r = synced(doc, name, key, text);
    let p = with_separator(doc).len() as int;
    lemma_header_from(doc, name, 0);
    lemma_empty_line();
    lemma_header_line_trimmed(name);
    assert(r.subrange(0, doc.len() as int) =~= doc);
    assert forall|j: int| 0 <= j < p implies !is_header_for(#[trigger] r[j], name) by {
        if j < doc.len() {
            assert(r[j] == doc[j]);
        }
    }
    lemma_header_from_is(r, name, 0, p);
}

/// Where the key is already set in the section, only that line changes: it
/// becomes `text`, and the line count and every other line stay.
pub proof fn lemma_update_in_place(
    doc: Seq<Seq<char>>,
    name: Seq<char>,
    key: Seq<char>,
    text: Seq<char>,
)
    requires
        section_start(doc, name) is Some,
        setting_index(doc, section_start(doc, name).unwrap(), key) is Some,
    ensures
        ({
            let r = synced(doc, name, key, text);
            let i = setting_index(doc, section_start(doc, name).unwrap(), key).unwrap();
            &&& 0 <= i < doc.len()
            &&& r.len() == doc.len()
            &&& r[i] == text
            &&& forall|j: int| 0 <= j < doc.len() && j != i ==> r[j] == doc[j]
        }),
{
    lemma_located(doc, name, key);
}

/// Where the key is missing from a present section, `text` is inserted at the
/// section's end: the lines before it stay, and the lines from it onward move
/// down by one.
pub proof fn lemma_insert_at_end(
    doc: Seq<Seq<char>>,
    name: Seq<char>,
    key: Seq<char>,
    text: Seq<char>,
)
    requires
        section_start(doc, name) is Some,
        setting_index(doc, section_start(doc, name).unwrap(), key) is None,
    ensures
        ({
            let r = synced(doc, name, key, text);
            let s = section_start(doc, name).unwrap();
            let e = section_end(doc, s);
            &&& s < e <= doc.len()
            &&& e < doc.len() ==> looks_like_header(doc[e])
            &&& r.len() == doc.len() + 1
            &&& r[e] == text
            &&& forall|j: int| 0 <= j < e ==> r[j] == doc[j]
            &&& forall|j: int| e <= j < doc.len() ==> r[j + 1] == doc[j]
        }),
{
    lemma_located(doc, name, key);
    let s = section_start(doc, name).unwrap();
    doc.insert_ensures(section_end(doc, s), text);
}

/// Whether synchronizing moves line `j` of `doc` down by one.
pub open spec fn moved_down(doc: Seq<Seq<char>>, name: Seq<char>, key: Seq<char>, j: int) -> bool {
    match section_start(doc, name) {
        Some(s) => setting_index(doc, s, key) is None && j >= section_end(doc, s),
        None => false,
    }
}

/// Blank and comment lines are never taken for settings, and synchronizing
/// keeps each of them: in its place, or one line further down where the new
/// line went in above it.
pub proof fn lemma_inert_lines_kept(
    doc: Seq<Seq<char>>,
    name: Seq<char>,
    key: Seq<char>,
    text: Seq<char>,
)
    ensures
        forall|line: Seq<char>| is_inert(line) ==> setting_of(line) is None,
        forall|j: int|
            0 <= j < doc.len() && is_inert(#[trigger] doc[j]) ==> if moved_down(doc, name, key, j) {
                synced(doc, name, key, text)[j + 1] == doc[j]
            } else {
                synced(doc, name, key, text)[j] == doc[j]
            },
{
    let r = synced(doc, name, key, text);
    match section_start(doc, name) {
        None => {},
        Some(s) => {
            lemma_located(doc, name, key);
            let e = section_end(doc, s);
            match setting_index(doc, s, key) {
                Some(i) => {
                    assert forall|j: int| 0 <= j < doc.len() && is_inert(#[trigger] doc[j]) implies r[j]
                        == doc[j] by {
                        if j == i {
                            lemma_setting_not_inert(doc[i]);
                        }
                    }
                },
                None => {
                    doc.insert_ensures(e, text);
                },
            }
        },
    }
}

proof fn lemma_strip_start_first(s: Seq<char>, q: bool)
    ensures
        strip_start(s, q).len() > 0 ==> !strip_pred(q, strip_start(s, q)[0]),
    decreases s.len(),
{
    if s.len() > 0 && strip_pred(q, s[0]) {
        lemma_strip_start_first(s.drop_first(), q);
    }
}

proof fn lemma_strip_end_prefix(s: Seq<char>, q: bool)
    ensures
        strip_end(s, q).len() <= s.len(),
        strip_end(s, q) == s.subrange(0, strip_end(s, q).len() as int),
        strip_end(s, q).len() > 0 ==> !strip_pred(q, strip_end(s, q).last()),
    decreases s.len(),
{
    if s.len() > 0 && strip_pred(q, s.last()) {
        lemma_strip_end_prefix(s.drop_last(), q);
        let r = strip_end(s.drop_last(), q);
        assert(r == s.subrange(0, r.len() as int));
    } else {
        assert(s == s.subrange(0, s.len() as int));
    }
}

/// A text that neither starts nor ends with a stripped character is its own strip.
proof fn lemma_strip_fixed(s: Seq<char>, q: bool)
    requires
        s.len() > 0,
        !strip_pred(q, s[0]),
        !strip_pred(q, s.last()),
    ensures
        strip_end(strip_start(s, q), q) == s,
{
}

/// A name usable as a key: not empty, no surrounding whitespace, no `=`, and
/// not read as a comment.
pub open spec fn plain_key(t: Seq<char>) -> bool {
    &&& t.len() > 0
    &&& !is_ws(t[0])
    &&& !is_ws(t.last())
    &&& t[0] != ';'
    &&& t[0] != '#'
    &&& !t.contains('=')
}

/// The entry written for a triplet reads back as that triplet's setting, with
/// the path (without surrounding quotes) as its value, and is no header.
pub proof fn lemma_library_entry_reads_back(t: Seq<char>, p: Seq<char>)
    requires
        plain_key(t),
    ensures
        setting_of(library_entry(t, p)) == Some((t, unquoted(p))),
        setting_key(library_entry(t, p)) == Some(t),
        !looks_like_header(library_entry(t, p)),
{
    reveal_strlit("=\"");
    reveal_strlit("\"");
    let u = unquoted(p);
    let y = strip_start(p, true);
    lemma_strip_start_first(p, true);
    lemma_strip_end_prefix(y, true);
    if u.len() > 0 {
        assert(u[0] == y[0]);
    }
    let e = library_entry(t, p);
    let n = t.len() as int;
    let v = seq!['"'] + u + seq!['"'];
    assert(e =~= t + seq!['='] + v);
    assert(e[0] == t[0]);
    assert(e.last() == '"');
    lemma_strip_fixed(e, false);
    assert(trimmed(e) == e);
    assert(is_first_index(e, '=', n)) by {
        assert forall|j: int| 0 <= j < n implies e[j] != '=' by {
            assert(e[j] == t[j]);
            if t[j] == '=' {
                assert(t.contains('='));
            }
        }
    }
    assert(e.contains('='));
    let c = choose|c: int| is_first_index(e, '=', c);
    lemma_first_index_unique(e, '=', n, c);
    assert(e.subrange(0, n) =~= t);
    assert(e.subrange(n + 1, e.len() as int) =~= v);
    lemma_strip_fixed(t, false);
    lemma_strip_fixed(v, false);
    assert(key_value(e) == Some((t, v)));
    assert(v.drop_first() =~= u + seq!['"']);
    let w = u + seq!['"'];
    if u.len() > 0 {
        assert(w[0] == u[0]);
        assert(strip_start(w, true) == w);
    } else {
        assert(w.drop_first() =~= Seq::<char>::empty());
        assert(w[0] == '"');
        assert(strip_start(Seq::<char>::empty(), true) == Seq::<char>::empty());
        assert(strip_start(w, true) == Seq::<char>::empty());
    }
    assert(strip_start(v, true) == strip_start(w, true));
    if u.len() > 0 {
        assert(w.drop_last() =~= u);
        assert(strip_end(u, true) == u);
        assert(strip_end(w, true) == u);
    }
    assert(unquoted(v) == u);
    assert(!is_inert(e));
}

/// Recording a library twice for the same triplet and path gives the same
/// document as recording it once.
pub proof fn lemma_library_idempotent(doc: Seq<Seq<char>>, triplet: Seq<char>, path: Seq<char>)
    requires
        plain_key(triplet),
    ensures
        with_library(with_library(doc, triplet, path), triplet, path) == with_library(
            doc,
            triplet,
            path,
        ),
{
    lemma_library_entry_reads_back(triplet, path);
    lemma_idempotent(
        doc,
        crate::sync::libraries_name(),
        triplet,
        library_entry(triplet, path),
    );
}

} // verus!

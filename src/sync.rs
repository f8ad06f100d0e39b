use vstd::prelude::*;

use crate::document::{
    doc_view, find_section_end, find_section_start, find_setting_in_section, make_header,
    section_end, section_start, setting_index,
};
use crate::text::{header_line, trim_quotes, unquoted};

verus! {

/// The document with a blank line appended, unless it is empty or already
/// ends with an empty line.
pub open spec fn with_separator(doc: Seq<Seq<char>>) -> Seq<Seq<char>> {
    if doc.len() > 0 && doc.last().len() > 0 {
        doc.push(Seq::empty())
    } else {
        doc
    }
}

/// The document after making sure that section `name` holds `text` as the
/// line for `key`: the key's line is replaced, or `text` becomes the
/// section's last line, or the section is appended with `text` below it.
pub open spec fn synced(doc: Seq<Seq<char>>, name: Seq<char>, key: Seq<char>, text: Seq<char>) -> Seq<
    Seq<char>,
> {
    match section_start(doc, name) {
        None => with_separator(doc).push(header_line(name)).push(text),
        Some(s) => match setting_index(doc, s, key) {
            Some(i) => doc.update(i, text),
            None => doc.insert(section_end(doc, s), text),
        },
    }
}

pub open spec fn configuration_name() -> Seq<char> {
    "configuration"@
}

pub open spec fn libraries_name() -> Seq<char> {
    "libraries"@
}

/// The three fixed settings of the configuration section, in order.
pub open spec fn configured(doc: Seq<Seq<char>>) -> Seq<Seq<char>> {
    let d1 = synced(doc, configuration_name(), "entry_symbol"@, "entry_symbol=\"gdext_rust_init\""@);
    let d2 = synced(
        d1,
        configuration_name(),
        "compatibility_minimum"@,
        "compatibility_minimum=\"4.5\""@,
    );
    synced(d2, configuration_name(), "reloadable"@, "reloadable=\"true\""@)
}

/// The line `triplet="path"`, with any quotes around `path` removed first.
pub open spec fn library_entry(triplet: Seq<char>, path: Seq<char>) -> Seq<char> {
    triplet + "=\""@ + unquoted(path) + "\""@
}

/// The document after recording `path` as the library of `triplet`.
pub open spec fn with_library(doc: Seq<Seq<char>>, triplet: Seq<char>, path: Seq<char>) -> Seq<
    Seq<char>,
> {
    synced(doc, libraries_name(), triplet, library_entry(triplet, path))
}

/// Makes section `name` hold `text` as the line for `key`, disturbing
/// nothing else: the key's line is overwritten in place, or `text` is
/// inserted at the section's end, or the section is appended.
pub fn ensure_section_setting(lines: &mut Vec<String>, name: &str, key: &str, text: &str)
    ensures
        doc_view(final(lines)@) == synced(doc_view(old(lines)@), name@, key@, text@),
{
    let ghost doc = doc_view(lines@);
    match find_section_start(lines, name) {
        None => {
            let n = lines.len();
            if n > 0 && lines[n - 1].as_str().unicode_len() > 0 {
                lines.push(String::new());
            }
            assert(doc_view(lines@) =~= with_separator(doc));
            lines.push(make_header(name));
            lines.push(text.to_owned());
            assert(doc_view(lines@) =~= synced(doc, name@, key@, text@));
        },
        Some(start) => {
            match find_setting_in_section(lines, start, key) {
                Some((i, _)) => {
                    proof {
                        crate::document::lemma_end_from(doc, start + 1);
                        crate::document::lemma_setting_from(
                            doc,
                            key@,
                            start + 1,
                            section_end(doc, start as int),
                        );
                    }
                    lines.set(i, text.to_owned());
                    assert(doc_view(lines@) =~= synced(doc, name@, key@, text@));
                },
                None => {
                    let end = find_section_end(lines, start);
                    proof {
                        crate::document::lemma_end_from(doc, start + 1);
                    }
                    lines.insert(end, text.to_owned());
                    assert(doc_view(lines@) =~= synced(doc, name@, key@, text@));
                },
            }
        },
    }
}

/// Makes the configuration section hold its three fixed settings.
pub fn ensure_configuration_section(lines: &mut Vec<String>)
    ensures
        doc_view(final(lines)@) == configured(doc_view(old(lines)@)),
{
    ensure_section_setting(
        lines,
        "configuration",
        "entry_symbol",
        "entry_symbol=\"gdext_rust_init\"",
    );
    ensure_section_setting(
        lines,
        "configuration",
        "compatibility_minimum",
        "compatibility_minimum=\"4.5\"",
    );
    ensure_section_setting(lines, "configuration", "reloadable", "reloadable=\"true\"");
}

/// Builds the libraries entry `triplet="path"`.
pub fn make_library_entry(triplet: &str, lib_path: &str) -> (r: String)
    ensures
        r@ == library_entry(triplet@, lib_path@),
{
    let mut e = String::from_str(triplet);
    e.append("=\"");
    e.append(trim_quotes(lib_path));
    e.append("\"");
    e
}

/// Makes the libraries section map `triplet` to `lib_path`.
pub fn ensure_libraries_section(lines: &mut Vec<String>, triplet: &str, lib_path: &str)
    ensures
        doc_view(final(lines)@) == with_library(doc_view(old(lines)@), triplet@, lib_path@),
{
    let entry = make_library_entry(triplet, lib_path);
    ensure_section_setting(lines, "libraries", triplet, entry.as_str());
}

/// Brings a whole document up to date for one build target: first the
/// configuration section, then the libraries entry.
pub fn synchronize(lines: &mut Vec<String>, triplet: &str, lib_path: &str)
    ensures
        doc_view(final(lines)@) == with_library(configured(doc_view(old(lines)@)), triplet@, lib_path@),
{
    ensure_configuration_section(lines);
    ensure_libraries_section(lines, triplet, lib_path);
}

} // verus!

use vstd::prelude::*;

use crate::document::doc_view;
use crate::error::SyncError;
use crate::sync::libraries_name;
use crate::text::{is_header_for, is_inert, key_value, unquoted};
use crate::text::{is_inert_line, parse_key_value, same_text, trim_quotes, trim_text};

verus! {

/// Entries as character sequences.
pub open spec fn pairs_view(es: Seq<(String, String)>) -> Seq<(Seq<char>, Seq<char>)> {
    es.map_values(|p: (String, String)| (p.0@, p.1@))
}

/// One pass over the document: whether `[libraries]` has been seen, and the
/// entries gathered since, or the index of the first malformed line.
pub open spec fn scan(doc: Seq<Seq<char>>) -> (bool, Result<Seq<(Seq<char>, Seq<char>)>, int>)
    decreases doc.len(),
{
    if doc.len() == 0 {
        (false, Ok(Seq::empty()))
    } else {
        let prev = scan(doc.drop_last());
        let line = doc.last();
        match prev.1 {
            Err(j) => prev,
            Ok(es) => if is_header_for(line, libraries_name()) {
                (true, Ok(es))
            } else if !prev.0 || is_inert(line) {
                prev
            } else {
                match key_value(line) {
                    Some((k, v)) => (true, Ok(es.push((k, unquoted(v))))),
                    None => (true, Err(doc.len() - 1)),
                }
            },
        }
    }
}

/// The settings found after the first `[libraries]` header up to the end of
/// the document, in order, or the index of the first line that is no setting.
pub open spec fn library_entries(doc: Seq<Seq<char>>) -> Result<Seq<(Seq<char>, Seq<char>)>, int> {
    scan(doc).1
}

/// The mapping that entries give, a later entry overriding an earlier one.
pub open spec fn entries_map(es: Seq<(Seq<char>, Seq<char>)>) -> Map<Seq<char>, Seq<char>>
    decreases es.len(),
{
    if es.len() == 0 {
        Map::empty()
    } else {
        entries_map(es.drop_last()).insert(es.last().0, es.last().1)
    }
}

/// Whether the document must be rewritten for `triplet` to map to `expected`.
pub open spec fn update_needed(
    entries: Seq<(Seq<char>, Seq<char>)>,
    triplet: Seq<char>,
    expected: Seq<char>,
) -> bool {
    !(entries_map(entries).contains_key(triplet) && entries_map(entries)[triplet] == expected)
}

proof fn lemma_map_prefix(es: Seq<(Seq<char>, Seq<char>)>, i: int, key: Seq<char>)
    requires
        0 <= i <= es.len(),
        forall|k: int| i <= k < es.len() ==> (#[trigger] es[k]).0 != key,
    ensures
        entries_map(es).contains_key(key) == entries_map(es.subrange(0, i)).contains_key(key),
        entries_map(es).contains_key(key) ==> entries_map(es)[key] == entries_map(
            es.subrange(0, i),
        )[key],
    decreases es.len(),
{
    if es.len() == i {
        assert(es.subrange(0, i) =~= es);
    } else {
        let d = es.drop_last();
        assert(d.subrange(0, i) =~= es.subrange(0, i));
        lemma_map_prefix(d, i, key);
    }
}

proof fn lemma_scan_err_stays(doc: Seq<Seq<char>>, m: int, k: int, j: int)
    requires
        0 <= m <= k <= doc.len(),
        scan(doc.subrange(0, m)).1 == Err::<Seq<(Seq<char>, Seq<char>)>, int>(j),
    ensures
        scan(doc.subrange(0, k)).1 == Err::<Seq<(Seq<char>, Seq<char>)>, int>(j),
    decreases k - m,
{
    if m < k {
        lemma_scan_err_stays(doc, m, k - 1, j);
        assert(doc.subrange(0, k).drop_last() =~= doc.subrange(0, k - 1));
    }
}

/// Gathers the settings of the libraries section: every line after the first
/// `[libraries]` header, to the end of the document, that is not blank, a
/// comment or a `[libraries]` header, must be a `key=value` setting.
pub fn parse_section_to_map(lines: &Vec<String>) -> (r: Result<Vec<(String, String)>, SyncError>)
    ensures
        match (r, library_entries(doc_view(lines@))) {
            (Ok(es), Ok(m)) => pairs_view(es@) == m,
            (Err(e), Err(j)) => e == (SyncError::MalformedLine { line: j as usize }),
            _ => false,
        },
{
    let ghost doc = doc_view(lines@);
    let mut res: Vec<(String, String)> = Vec::new();
    let mut collecting = false;
    let mut i: usize = 0;
    assert(doc.subrange(0, 0) =~= Seq::<Seq<char>>::empty());
    assert(pairs_view(res@) =~= Seq::<(Seq<char>, Seq<char>)>::empty());
    while i < lines.len()
        invariant
            i <= lines.len(),
            doc == doc_view(lines@),
            scan(doc.subrange(0, i as int)) == (collecting, Ok::<
                Seq<(Seq<char>, Seq<char>)>,
                int,
            >(pairs_view(res@))),
        decreases lines.len() - i,
    {
        let ghost sub = doc.subrange(0, i + 1);
        assert(sub.drop_last() =~= doc.subrange(0, i as int));
        let line = lines[i].as_str();
        let header = same_text(trim_text(line), "[libraries]");
        proof {
            reveal_strlit("[libraries]");
            reveal_strlit("libraries");
            assert("[libraries]"@ =~= crate::text::header_line(libraries_name()));
        }
        if header {
            collecting = true;
        } else if collecting && !is_inert_line(line) {
            match parse_key_value(line) {
                Some((k, v)) => {
                    let ghost prev = pairs_view(res@);
                    res.push((k.to_owned(), trim_quotes(v).to_owned()));
                    assert(pairs_view(res@) =~= prev.push((k@, unquoted(v@))));
                },
                None => {
                    proof {
                        lemma_scan_err_stays(doc, i + 1, doc.len() as int, i as int);
                        assert(doc.subrange(0, doc.len() as int) =~= doc);
                    }
                    return Err(SyncError::MalformedLine { line: i });
                },
            }
        }
        i = i + 1;
    }
    assert(doc.subrange(0, i as int) =~= doc);
    Ok(res)
}

/// The value that the entries give to `key`: that of its last entry.
pub fn lookup_entry(entries: &Vec<(String, String)>, key: &str) -> (r: Option<String>)
    ensures
        match r {
            Some(v) => entries_map(pairs_view(entries@)).contains_key(key@) && entries_map(
                pairs_view(entries@),
            )[key@] == v@,
            None => !entries_map(pairs_view(entries@)).contains_key(key@),
        },
{
    let ghost es = pairs_view(entries@);
    let mut i: usize = entries.len();
    while i > 0
        invariant
            i <= entries.len(),
            es == pairs_view(entries@),
            forall|k: int| i <= k < es.len() ==> (#[trigger] es[k]).0 != key@,
        decreases i,
    {
        if same_text(entries[i - 1].0.as_str(), key) {
            proof {
                lemma_map_prefix(es, i as int, key@);
                assert(es.subrange(0, i as int).drop_last() =~= es.subrange(0, i - 1));
            }
            return Some(entries[i - 1].1.clone());
        }
        i = i - 1;
    }
    proof {
        lemma_map_prefix(es, 0, key@);
    }
    None
}

/// Whether the document must be rewritten so that `triplet` maps to
/// `expected_value`. A document that could not be had (`None`) always must.
pub fn needs_update(doc: Option<&Vec<String>>, triplet: &str, expected_value: &str) -> (r: Result<
    bool,
    SyncError,
>)
    ensures
        match doc {
            None => r == Ok::<bool, SyncError>(true),
            Some(lines) => match library_entries(doc_view(lines@)) {
                Ok(es) => r == Ok::<bool, SyncError>(update_needed(es, triplet@, expected_value@)),
                Err(j) => r == Err::<bool, SyncError>(SyncError::MalformedLine { line: j as usize }),
            },
        },
{
    match doc {
        None => Ok(true),
        Some(lines) => match parse_section_to_map(lines) {
            Err(e) => Err(e),
            Ok(entries) => match lookup_entry(&entries, triplet) {
                Some(v) => Ok(!same_text(v.as_str(), expected_value)),
                None => Ok(true),
            },
        },
    }
}

} // verus!

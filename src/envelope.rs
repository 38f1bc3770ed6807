//! Reading envelopes: telling the legacy text format from the structured one,
//! reading legacy text, and admitting structured envelopes of the current version.
use vstd::prelude::*;
use crate::entries::{distinct_keys, entries_map, lemma_push_entry, upsert};
use crate::error::{ErrorKind, StorageError};
use crate::storage::{FileStorageData, STORAGE_VERSION};
use crate::text::{find_char, lemma_find_char_bounds, lines_of, split_once_char, strip_prefix};
use crate::value::{parse_i32, StorageValue, i32_text_value};

verus! {

/// The version that legacy text files carry.
pub const LEGACY_VERSION: i32 = 2;

/// How a file's content is to be read.
#[derive(PartialEq, Eq, Structural, Clone, Copy, Debug)]
pub enum StorageFormat {
    /// Plain text: a `version N` line, then `key:value` lines.
    Legacy,
    /// A structured document with a version and the entries.
    Structured,
}

/// Whether text starts like a legacy file.
pub open spec fn is_legacy_text(c: Seq<char>) -> bool {
    "version "@.is_prefix_of(c)
}

/// The version that a legacy header line declares, if it is one.
pub open spec fn header_version(h: Seq<char>) -> Option<i32> {
    if is_legacy_text(h) {
        i32_text_value(h.skip("version "@.len() as int))
    } else {
        None
    }
}

/// The key of a `key:value` line.
pub open spec fn line_key(l: Seq<char>) -> Seq<char> {
    l.take(find_char(l, ':')->0)
}

/// The value text of a `key:value` line.
pub open spec fn line_value(l: Seq<char>) -> Seq<char> {
    l.skip(find_char(l, ':')->0 + 1)
}

/// A body line is either empty or a key, a separator and a parsable value.
pub open spec fn line_ok<V: StorageValue>(l: Seq<char>) -> bool {
    l.len() == 0 || (find_char(l, ':') is Some && V::parses(line_value(l)))
}

pub open spec fn lines_ok<V: StorageValue>(lines: Seq<Seq<char>>) -> bool {
    forall|i: int| 0 <= i < lines.len() ==> #[trigger] line_ok::<V>(lines[i])
}

/// Index of the last non-empty line among `lines` whose key is `k`.
pub open spec fn last_line_with(lines: Seq<Seq<char>>, k: Seq<char>) -> Option<int>
    decreases lines.len(),
{
    if lines.len() == 0 {
        None
    } else if lines.last().len() > 0 && line_key(lines.last()) == k {
        Some(lines.len() - 1)
    } else {
        last_line_with(lines.drop_last(), k)
    }
}

/// `m` is what reading the body `lines` in order yields: each non-empty line
/// sets its key to its value, later lines winning.
pub open spec fn legacy_map<V: StorageValue>(lines: Seq<Seq<char>>, m: Map<Seq<char>, V>) -> bool {
    &&& forall|k: Seq<char>| #[trigger] m.contains_key(k) <==> last_line_with(lines, k) is Some
    &&& forall|k: Seq<char>| #[trigger] m.contains_key(k)
        ==> V::parses_to(line_value(lines[last_line_with(lines, k)->0]), m[k])
}

proof fn lemma_last_line_bounds(lines: Seq<Seq<char>>, k: Seq<char>)
    ensures
        last_line_with(lines, k) matches Some(i) ==> 0 <= i < lines.len(),
    decreases lines.len(),
{
    if lines.len() > 0 {
        lemma_last_line_bounds(lines.drop_last(), k);
    }
}

pub(crate) proof fn lemma_legacy_step<V: StorageValue>(lines: Seq<Seq<char>>, l: Seq<char>, m0: Map<Seq<char>, V>, v: V)
    requires
        legacy_map::<V>(lines, m0),
        l.len() > 0,
        V::parses_to(line_value(l), v),
    ensures
        legacy_map::<V>(lines.push(l), m0.insert(line_key(l), v)),
{
    let next = lines.push(l);
    let m = m0.insert(line_key(l), v);
    assert(next.drop_last() =~= lines);
    assert forall|k: Seq<char>| #[trigger] m.contains_key(k) <==> last_line_with(next, k) is Some by {
        assert(m0.contains_key(k) <==> last_line_with(lines, k) is Some);
    }
    assert forall|k: Seq<char>| #[trigger] m.contains_key(k)
        implies V::parses_to(line_value(next[last_line_with(next, k)->0]), m[k]) by {
        if k != line_key(l) {
            assert(m0.contains_key(k));
            lemma_last_line_bounds(lines, k);
            let i = last_line_with(lines, k)->0;
            assert(next[i] == lines[i]);
        }
    }
}

pub(crate) proof fn lemma_legacy_empty_line<V: StorageValue>(lines: Seq<Seq<char>>, l: Seq<char>, m: Map<Seq<char>, V>)
    requires
        legacy_map::<V>(lines, m),
        l.len() == 0,
    ensures
        legacy_map::<V>(lines.push(l), m),
{
    let next = lines.push(l);
    assert(next.drop_last() =~= lines);
    assert forall|k: Seq<char>| #[trigger] m.contains_key(k) <==> last_line_with(next, k) is Some by {
        assert(m.contains_key(k) <==> last_line_with(lines, k) is Some);
    }
    assert forall|k: Seq<char>| #[trigger] m.contains_key(k)
        implies V::parses_to(line_value(next[last_line_with(next, k)->0]), m[k]) by {
        lemma_last_line_bounds(lines, k);
        let i = last_line_with(lines, k)->0;
        assert(next[i] == lines[i]);
    }
}

/// The body lines of a legacy text: all lines after the header.
pub open spec fn body_lines(c: Seq<char>) -> Seq<Seq<char>> {
    lines_of(c).skip(1)
}

/// Tells the two formats apart by how the content starts.
pub fn detect_format(content: &str) -> (r: StorageFormat)
    ensures
        r == (if is_legacy_text(content@) { StorageFormat::Legacy } else { StorageFormat::Structured }),
{
    match strip_prefix(content, "version ") {
        Some(_) => StorageFormat::Legacy,
        None => StorageFormat::Structured,
    }
}

/// Checks a legacy header line: it must declare the legacy version.
pub fn check_legacy_header(label: &String, header: &str) -> (r: Result<(), StorageError>)
    ensures
        r is Ok == (header_version(header@) == Some(LEGACY_VERSION)),
        r matches Err(e) ==> e.label@ == label@ && e.kind == match header_version(header@) {
            None => ErrorKind::MissingHeader,
            Some(v) => ErrorKind::VersionMismatch { expected: LEGACY_VERSION, found: v },
        },
{
    match strip_prefix(header, "version ") {
        None => Err(StorageError::new(label, ErrorKind::MissingHeader)),
        Some(rest) => match parse_i32(rest) {
            None => Err(StorageError::new(label, ErrorKind::MissingHeader)),
            Some(v) => if v == LEGACY_VERSION {
                Ok(())
            } else {
                Err(StorageError::new(label, ErrorKind::VersionMismatch { expected: LEGACY_VERSION, found: v }))
            },
        },
    }
}

/// Reads the `key:value` lines of `body` into `entries`.
fn read_legacy_body<V: StorageValue>(label: &String, body: &str, entries: &mut Vec<(String, V)>) -> (r: Result<(), StorageError>)
    requires
        old(entries)@.len() == 0,
    ensures
        r is Ok == lines_ok::<V>(lines_of(body@)),
        r is Ok ==> distinct_keys(final(entries)@) && legacy_map::<V>(lines_of(body@), entries_map(final(entries)@)),
        r matches Err(e) ==> e.label@ == label@ && e.kind == ErrorKind::MalformedLegacy,
{
    let ghost all = lines_of(body@);
    let ghost mut done: Seq<Seq<char>> = Seq::empty();
    let mut rest: &str = body;
    let mut finished = false;
    proof {
        assert(entries_map(entries@) =~= Map::<Seq<char>, V>::empty());
        assert(done + lines_of(rest@) =~= all);
    }
    while !finished
        invariant
            all == lines_of(body@),
            finished ==> done == all,
            !finished ==> done + lines_of(rest@) == all,
            lines_ok::<V>(done),
            distinct_keys(entries@),
            legacy_map::<V>(done, entries_map(entries@)),
        decreases (if finished { 0 } else { rest@.len() + 1 }),
    {
        proof {
            lemma_find_char_bounds(rest@, '\n');
        }
        let (line, next, last) = match split_once_char(rest, '\n') {
            Some(p) => (p.0, p.1, false),
            None => (rest, rest, true),
        };
        let ghost now_done = done.push(line@);
        proof {
            if last {
                assert(lines_of(rest@) == seq![rest@]);
                assert(now_done =~= all);
            } else {
                assert(lines_of(rest@) == seq![line@] + lines_of(next@));
                assert(now_done + lines_of(next@) =~= all);
            }
            assert(now_done.drop_last() =~= done);
            assert(now_done.last() == line@);
        }
        if !line.is_empty() {
            proof {
                lemma_find_char_bounds(line@, ':');
            }
            match split_once_char(line, ':') {
                None => {
                    proof {
                        assert(!line_ok::<V>(all[done.len() as int]));
                        assert(!lines_ok::<V>(all));
                    }
                    return Err(StorageError::new(label, ErrorKind::MalformedLegacy));
                },
                Some(kv) => match V::parse_text(kv.1) {
                    None => {
                        proof {
                            assert(!line_ok::<V>(all[done.len() as int]));
                        assert(!lines_ok::<V>(all));
                        }
                        return Err(StorageError::new(label, ErrorKind::MalformedLegacy));
                    },
                    Some(v) => {
                        let ghost m0 = entries_map(entries@);
                        let key = kv.0.to_owned();
                        proof {
                            assert(line_key(line@) == key@);
                            assert(line_value(line@) == kv.1@);
                        }
                        upsert(entries, key, v);
                        proof {
                            let m = entries_map(entries@);
                            assert(m == m0.insert(key@, v));
                            assert(m.contains_key(line_key(line@)));
                            assert(m[line_key(line@)] == v);
                            assert(legacy_map::<V>(now_done.drop_last(), m0));
                            assert(now_done.len() > 0 && now_done.last().len() > 0);
                            assert(m == m0.insert(line_key(now_done.last()), m[line_key(now_done.last())]));
                            assert(V::parses_to(line_value(line@), v));
                            assert(V::parses_to(line_value(now_done.last()), m[line_key(now_done.last())]));
                            lemma_legacy_step::<V>(done, line@, m0, v);
                            assert(legacy_map::<V>(now_done, m));
                        }
                    },
                },
            }
        } else {
            proof {
                lemma_legacy_empty_line::<V>(done, line@, entries_map(entries@));
            }
        }
        proof {
            assert forall|i: int| 0 <= i < now_done.len() implies #[trigger] line_ok::<V>(now_done[i]) by {
                if i < done.len() {
                    assert(now_done[i] == done[i]);
                }
            }
            done = now_done;
        }
        rest = next;
        finished = last;
    }
    Ok(())
}

/// Reads a legacy text file: a header declaring the legacy version, then one
/// `key:value` entry per non-empty line, split at the first separator.
pub fn read_legacy<V: StorageValue>(label: &String, content: &str) -> (r: Result<FileStorageData<V>, StorageError>)
    ensures
        r is Ok == (header_version(lines_of(content@)[0]) == Some(LEGACY_VERSION)
            && lines_ok::<V>(body_lines(content@))),
        r matches Ok(d) ==> d.wf() && d.version == LEGACY_VERSION && legacy_map::<V>(body_lines(content@), d.map()),
        r matches Err(e) ==> e.label@ == label@ && e.kind == match header_version(lines_of(content@)[0]) {
            None => ErrorKind::MissingHeader,
            Some(v) => if v != LEGACY_VERSION {
                ErrorKind::VersionMismatch { expected: LEGACY_VERSION, found: v }
            } else {
                ErrorKind::MalformedLegacy
            },
        },
{
    proof {
        lemma_find_char_bounds(content@, '\n');
    }
    let mut entries: Vec<(String, V)> = Vec::new();
    match split_once_char(content, '\n') {
        None => {
            proof {
                assert(lines_of(content@) == seq![content@]);
                assert(body_lines(content@) =~= Seq::<Seq<char>>::empty());
                assert(entries_map(entries@) =~= Map::<Seq<char>, V>::empty());
            }
            check_legacy_header(label, content)?;
            Ok(FileStorageData { version: LEGACY_VERSION, entries })
        },
        Some(p) => {
            proof {
                assert(lines_of(content@) == seq![p.0@] + lines_of(p.1@));
                assert(body_lines(content@) =~= lines_of(p.1@));
            }
            check_legacy_header(label, p.0)?;
            read_legacy_body(label, p.1, &mut entries)?;
            Ok(FileStorageData { version: LEGACY_VERSION, entries })
        },
    }
}

/// The map that inserting `pairs` in order yields, later pairs winning.
pub open spec fn pairs_map<V>(pairs: Seq<(String, V)>) -> Map<Seq<char>, V>
    decreases pairs.len(),
{
    if pairs.len() == 0 {
        Map::empty()
    } else {
        pairs_map(pairs.drop_last()).insert(pairs.last().0@, pairs.last().1)
    }
}

/// Admits a decoded structured envelope: its version must be the current one.
pub fn accept_structured<V>(label: &String, version: i32, pairs: Vec<(String, V)>) -> (r: Result<FileStorageData<V>, StorageError>)
    ensures
        r is Ok == (version == STORAGE_VERSION),
        r matches Ok(d) ==> d.wf() && d.version == STORAGE_VERSION && d.map() == pairs_map(pairs@),
        r matches Err(e) ==> e.label@ == label@
            && e.kind == (ErrorKind::VersionMismatch { expected: STORAGE_VERSION, found: version }),
{
    if version != STORAGE_VERSION {
        return Err(StorageError::new(label, ErrorKind::VersionMismatch { expected: STORAGE_VERSION, found: version }));
    }
    let ghost all = pairs@;
    let mut entries: Vec<(String, V)> = Vec::new();
    let mut pending = pairs;
    proof {
        assert(entries_map(entries@) =~= Map::<Seq<char>, V>::empty());
    }
    let n = pending.len();
    let mut i: usize = 0;
    while i < n
        invariant
            n == all.len(),
            pending@ == all.subrange(i as int, n as int),
            i <= n,
            distinct_keys(entries@),
            entries_map(entries@) == pairs_map(all.subrange(0, i as int)),
        decreases n - i,
    {
        let e = pending.remove(0);
        proof {
            let next = all.subrange(0, i + 1);
            assert(next.drop_last() =~= all.subrange(0, i as int));
            assert(next.last() == e);
        }
        upsert(&mut entries, e.0, e.1);
        proof {
            assert(pending@ =~= all.subrange(i + 1, n as int));
        }
        i = i + 1;
    }
    assert(all.subrange(0, n as int) =~= all);
    Ok(FileStorageData { version: STORAGE_VERSION, entries })
}

/// Writing a store's entries as a structured envelope and admitting that
/// envelope again gives back the same map: the pairs of a map with distinct
/// keys, inserted in order, make up that map.
pub proof fn lemma_round_trip<V>(entries: Seq<(String, V)>)
    requires
        distinct_keys(entries),
    ensures
        pairs_map(entries) == entries_map(entries),
    decreases entries.len(),
{
    if entries.len() == 0 {
        assert(entries_map(entries) =~= Map::<Seq<char>, V>::empty());
    } else {
        let init = entries.drop_last();
        let last = entries.last();
        assert(init.push(last) =~= entries);
        assert forall|a: int, b: int|
            0 <= a < init.len() && 0 <= b < init.len() && a != b implies #[trigger] init[a].0@ != #[trigger] init[b].0@ by {
            assert(init[a] == entries[a]);
            assert(init[b] == entries[b]);
        }
        assert forall|i: int| 0 <= i < init.len() implies #[trigger] init[i].0@ != last.0@ by {
            assert(init[i] == entries[i]);
            assert(entries[entries.len() - 1] == last);
        }
        lemma_round_trip(init);
        lemma_push_entry(init, last.0, last.1);
    }
}

} // verus!

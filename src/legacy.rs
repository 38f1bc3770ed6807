//! The plain-text store: a `version 2` header line followed by one
//! `key:value` line per entry. Newer stores read this format and never write it.
use vstd::prelude::*;
use crate::entries::{distinct_keys, entries_map};
use crate::entries::{has_key, lemma_push_entry};
use crate::envelope::{body_lines, check_legacy_header, header_version, lemma_legacy_empty_line, lemma_legacy_step, legacy_map, line_key, line_ok, line_value, lines_ok, read_legacy, LEGACY_VERSION};
use crate::error::{ErrorKind, StorageError};
use crate::sync::Timestamp;
use crate::text::{find_char, lines_of};
use crate::value::{digits_value, StorageValue};

verus! {

/// Relies on `String::push_str`: `t` is appended to `s`.
#[verifier::external_body]
fn push_str(s: &mut String, t: &str)
    ensures
        final(s)@ == old(s)@ + t@,
{
    s.push_str(t);
}

/// The text of the entries `s`, one `key:value` line each, in order.
pub open spec fn entry_lines(s: Seq<(String, String)>) -> Seq<char>
    decreases s.len(),
{
    if s.len() == 0 {
        Seq::empty()
    } else {
        entry_lines(s.drop_last()) + s.last().0@ + seq![':'] + s.last().1@ + seq!['\n']
    }
}

/// The full legacy text of the entries `s`.
pub open spec fn legacy_text(s: Seq<(String, String)>) -> Seq<char> {
    "version 2\n"@ + entry_lines(s)
}

/// The line of one entry, without its newline.
pub open spec fn entry_line(e: (String, String)) -> Seq<char> {
    e.0@ + seq![':'] + e.1@
}

/// Entries whose text reads back unchanged: keys hold no separator and no
/// newline, values no newline, and no key repeats.
pub open spec fn renderable(s: Seq<(String, String)>) -> bool {
    &&& distinct_keys(s)
    &&& forall|i: int| 0 <= i < s.len() ==> !(#[trigger] s[i].0@).contains(':') && !s[i].0@.contains('\n')
    &&& forall|i: int| 0 <= i < s.len() ==> !(#[trigger] s[i].1@).contains('\n')
}

proof fn lemma_find_after_prefix(x: Seq<char>, ch: char, rest: Seq<char>)
    requires
        !x.contains(ch),
    ensures
        find_char(x + seq![ch] + rest, ch) == Some(x.len() as int),
    decreases x.len(),
{
    let c = x + seq![ch] + rest;
    if x.len() == 0 {
        assert(c[0] == ch);
    } else {
        assert(c[0] == x[0]);
        assert(!x.skip(1).contains(ch)) by {
            if x.skip(1).contains(ch) {
                let i = choose|i: int| 0 <= i < x.skip(1).len() && x.skip(1)[i] == ch;
                assert(x[i + 1] == ch);
            }
        }
        lemma_find_after_prefix(x.skip(1), ch, rest);
        assert(c.skip(1) =~= x.skip(1) + seq![ch] + rest);
    }
}

proof fn lemma_lines_after_line(x: Seq<char>, rest: Seq<char>)
    requires
        !x.contains('\n'),
    ensures
        lines_of(x + seq!['\n'] + rest) == seq![x] + lines_of(rest),
{
    let c = x + seq!['\n'] + rest;
    lemma_find_after_prefix(x, '\n', rest);
    assert(c.take(x.len() as int) =~= x);
    assert(c.skip(x.len() as int + 1) =~= rest);
}

proof fn lemma_lines_of_entries(s: Seq<(String, String)>, tail: Seq<char>)
    requires
        renderable(s),
    ensures
        lines_of(entry_lines(s) + tail) == s.map_values(|e: (String, String)| entry_line(e)) + lines_of(tail),
    decreases s.len(),
{
    if s.len() == 0 {
        assert(entry_lines(s) + tail =~= tail);
        assert(s.map_values(|e: (String, String)| entry_line(e)) =~= Seq::<Seq<char>>::empty());
        assert(Seq::<Seq<char>>::empty() + lines_of(tail) =~= lines_of(tail));
    } else {
        let init = s.drop_last();
        let e = s.last();
        assert(s[s.len() - 1] == e);
        assert(renderable(init)) by {
            assert forall|a: int, b: int| 0 <= a < init.len() && 0 <= b < init.len() && a != b
                implies #[trigger] init[a].0@ != #[trigger] init[b].0@ by {
                assert(init[a] == s[a] && init[b] == s[b]);
            }
            assert forall|i: int| 0 <= i < init.len() implies !(#[trigger] init[i].0@).contains(':') && !init[i].0@.contains('\n') by {
                assert(init[i] == s[i]);
            }
            assert forall|i: int| 0 <= i < init.len() implies !(#[trigger] init[i].1@).contains('\n') by {
                assert(init[i] == s[i]);
            }
        }
        let line = entry_line(e);
        let tail2 = line + seq!['\n'] + tail;
        assert(entry_lines(s) + tail =~= entry_lines(init) + tail2);
        lemma_lines_of_entries(init, tail2);
        assert(!line.contains('\n')) by {
            if line.contains('\n') {
                let i = choose|i: int| 0 <= i < line.len() && line[i] == '\n';
                if i < e.0@.len() {
                    assert(e.0@[i] == '\n');
                } else if i > e.0@.len() {
                    assert(e.1@[i - e.0@.len() - 1] == '\n');
                }
            }
        }
        lemma_lines_after_line(line, tail);
        assert(s.map_values(|e: (String, String)| entry_line(e))
            =~= init.map_values(|e: (String, String)| entry_line(e)).push(line));
        assert(init.map_values(|e: (String, String)| entry_line(e)) + (seq![line] + lines_of(tail))
            =~= s.map_values(|e: (String, String)| entry_line(e)) + lines_of(tail));
    }
}

proof fn lemma_renderable_init(s: Seq<(String, String)>)
    requires
        renderable(s),
        s.len() > 0,
    ensures
        renderable(s.drop_last()),
        !has_key(s.drop_last(), s.last().0@),
{
    let init = s.drop_last();
    assert(s[s.len() - 1] == s.last());
    assert forall|a: int, b: int| 0 <= a < init.len() && 0 <= b < init.len() && a != b
        implies #[trigger] init[a].0@ != #[trigger] init[b].0@ by {
        assert(init[a] == s[a] && init[b] == s[b]);
    }
    assert forall|i: int| 0 <= i < init.len() implies !(#[trigger] init[i].0@).contains(':') && !init[i].0@.contains('\n') by {
        assert(init[i] == s[i]);
    }
    assert forall|i: int| 0 <= i < init.len() implies !(#[trigger] init[i].1@).contains('\n') by {
        assert(init[i] == s[i]);
    }
    assert forall|i: int| 0 <= i < init.len() implies #[trigger] init[i].0@ != s.last().0@ by {
        assert(init[i] == s[i]);
    }
}

proof fn lemma_entry_line_parts(e: (String, String))
    requires
        !e.0@.contains(':'),
    ensures
        entry_line(e).len() > 0,
        find_char(entry_line(e), ':') is Some,
        line_key(entry_line(e)) == e.0@,
        line_value(entry_line(e)) == e.1@,
{
    lemma_find_after_prefix(e.0@, ':', e.1@);
    let l = entry_line(e);
    assert(l.take(e.0@.len() as int) =~= e.0@);
    assert(l.skip(e.0@.len() as int + 1) =~= e.1@);
}

proof fn lemma_entry_lines_map(s: Seq<(String, String)>)
    requires
        renderable(s),
    ensures
        legacy_map::<String>(s.map_values(|e: (String, String)| entry_line(e)), entries_map(s)),
    decreases s.len(),
{
    let lines = s.map_values(|e: (String, String)| entry_line(e));
    if s.len() == 0 {
        assert(entries_map(s) =~= Map::<Seq<char>, String>::empty());
        assert forall|k: Seq<char>| #[trigger] entries_map(s).contains_key(k) <==> crate::envelope::last_line_with(lines, k) is Some by {}
    } else {
        let init = s.drop_last();
        let e = s.last();
        assert(s[s.len() - 1] == e);
        lemma_renderable_init(s);
        lemma_entry_lines_map(init);
        lemma_entry_line_parts(e);
        assert(lines =~= init.map_values(|e: (String, String)| entry_line(e)).push(entry_line(e)));
        lemma_legacy_step::<String>(init.map_values(|e: (String, String)| entry_line(e)), entry_line(e), entries_map(init), e.1);
        lemma_push_entry(init, e.0, e.1);
        assert(init.push(e) =~= s);
    }
}

/// Text written by `render` reads back as what was rendered: its first line
/// is the legacy header, every later line is well formed, and together they
/// yield the map of the rendered entries.
pub proof fn lemma_legacy_round_trip(s: Seq<(String, String)>)
    requires
        renderable(s),
    ensures
        lines_of(legacy_text(s))[0] == "version 2"@,
        header_version(lines_of(legacy_text(s))[0]) == Some(LEGACY_VERSION),
        lines_ok::<String>(body_lines(legacy_text(s))),
        legacy_map::<String>(body_lines(legacy_text(s)), entries_map(s)),
{
    reveal_strlit("version 2\n");
    reveal_strlit("version 2");
    let header = "version 2"@;
    assert("version 2\n"@ =~= header + seq!['\n']);
    assert(!header.contains('\n')) by {
        if header.contains('\n') {
            let i = choose|i: int| 0 <= i < header.len() && header[i] == '\n';
            assert(header[i] != '\n');
        }
    }
    let body_text = entry_lines(s);
    assert(legacy_text(s) =~= header + seq!['\n'] + body_text);
    lemma_lines_after_line(header, body_text);
    lemma_lines_of_entries(s, Seq::empty());
    assert(body_text + Seq::<char>::empty() =~= body_text);
    let lines = s.map_values(|e: (String, String)| entry_line(e));
    assert(lines_of(Seq::<char>::empty()) == seq![Seq::<char>::empty()]);
    let body = body_lines(legacy_text(s));
    assert(body =~= lines.push(Seq::<char>::empty()));
    assert forall|i: int| 0 <= i < body.len() implies #[trigger] line_ok::<String>(body[i]) by {
        if i < s.len() {
            assert(body[i] == entry_line(s[i]));
            lemma_entry_line_parts(s[i]);
        }
    }
    lemma_entry_lines_map(s);
    lemma_legacy_empty_line::<String>(lines, Seq::<char>::empty(), entries_map(s));
    reveal_strlit("version ");
    let digits = header.skip("version "@.len() as int);
    assert(digits =~= seq!['2']);
    assert(digits.drop_last() =~= Seq::<char>::empty());
    assert(digits_value(digits.drop_last()) == 0);
    assert(digits.last() == '2');
    assert('2' as int - '0' as int == 2);
    assert(digits_value(digits) == 2);
    assert("version "@.is_prefix_of(header));
}

/// A store kept as plain text, with the modification time of its last write.
pub struct FileStorage {
    log_prefix: String,
    label: String,
    path: String,
    timestamp: Timestamp,
}

impl FileStorage {
    pub closed spec fn label_spec(&self) -> Seq<char> {
        self.label@
    }

    pub closed spec fn path_spec(&self) -> Seq<char> {
        self.path@
    }

    /// The label prefixed for log lines.
    pub closed spec fn log_prefix_spec(&self) -> Seq<char> {
        self.log_prefix@
    }

    /// The file's modification time after the last write.
    pub closed spec fn timestamp_spec(&self) -> Timestamp {
        self.timestamp
    }

    /// A store with a diagnostic label and a file path, created at time `now`.
    pub fn new(label: String, path: String, now: Timestamp) -> (r: FileStorage)
        ensures
            r.label_spec() == label@,
            r.path_spec() == path@,
            r.timestamp_spec() == now,
            r.log_prefix_spec() == "[file-storage] "@ + label@,
    {
        let mut log_prefix = String::new();
        push_str(&mut log_prefix, "[file-storage] ");
        push_str(&mut log_prefix, label.as_str());
        FileStorage { log_prefix, label, path, timestamp: now }
    }

    pub fn label(&self) -> (r: &String)
        ensures
            r@ == self.label_spec(),
    {
        &self.label
    }

    /// The label prefixed for log lines.
    pub fn log_prefix(&self) -> (r: &String)
        ensures
            r@ == self.log_prefix_spec(),
    {
        &self.log_prefix
    }

    pub fn path(&self) -> (r: &String)
        ensures
            r@ == self.path_spec(),
    {
        &self.path
    }

    pub fn timestamp(&self) -> (r: Timestamp)
        ensures
            r == self.timestamp_spec(),
    {
        self.timestamp
    }

    /// Whether the file, now modified at `file_updated`, changed since the last write.
    pub fn needs_reading(&self, file_updated: Timestamp) -> (r: bool)
        ensures
            r == (file_updated > self.timestamp_spec()),
    {
        file_updated > self.timestamp
    }

    /// Checks the header line: it must declare the legacy version.
    pub fn verify_version(&self, header: &str) -> (r: Result<(), StorageError>)
        ensures
            r is Ok == (header_version(header@) == Some(LEGACY_VERSION)),
            r matches Err(e) ==> e.label@ == self.label_spec() && e.kind == match header_version(header@) {
                None => ErrorKind::MissingHeader,
                Some(v) => ErrorKind::VersionMismatch { expected: LEGACY_VERSION, found: v },
            },
    {
        check_legacy_header(&self.label, header)
    }

    /// Reads the entries from the file's content.
    pub fn read_content<V: StorageValue>(&self, content: &str) -> (r: Result<Vec<(String, V)>, StorageError>)
        ensures
            r is Ok == (header_version(lines_of(content@)[0]) == Some(LEGACY_VERSION)
                && lines_ok::<V>(body_lines(content@))),
            r matches Ok(v) ==> distinct_keys(v@) && legacy_map::<V>(body_lines(content@), entries_map(v@)),
            r matches Err(e) ==> e.label@ == self.label_spec(),
    {
        match read_legacy::<V>(&self.label, content) {
            Ok(d) => Ok(d.entries),
            Err(e) => Err(e),
        }
    }

    /// The text to write for `entries`.
    pub fn render(&self, entries: &Vec<(String, String)>) -> (r: String)
        ensures
            r@ == legacy_text(entries@),
    {
        let mut out = String::new();
        push_str(&mut out, "version 2\n");
        let n = entries.len();
        let mut i: usize = 0;
        proof {
            assert(entries@.subrange(0, 0) =~= Seq::<(String, String)>::empty());
            assert(out@ =~= "version 2\n"@ + entry_lines(entries@.subrange(0, 0)));
        }
        while i < n
            invariant
                n == entries@.len(),
                i <= n,
                out@ == "version 2\n"@ + entry_lines(entries@.subrange(0, i as int)),
            decreases n - i,
        {
            let ghost before = out@;
            push_str(&mut out, entries[i].0.as_str());
            push_str(&mut out, ":");
            push_str(&mut out, entries[i].1.as_str());
            push_str(&mut out, "\n");
            proof {
                reveal_strlit(":");
                reveal_strlit("\n");
                let next = entries@.subrange(0, i + 1);
                assert(next.drop_last() =~= entries@.subrange(0, i as int));
                assert(next.last() == entries@[i as int]);
                assert(out@ =~= "version 2\n"@ + entry_lines(next));
            }
            i = i + 1;
        }
        assert(entries@.subrange(0, n as int) =~= entries@);
        out
    }

    /// Records a write after which the file's modification time is
    /// `file_updated`; fails, changing nothing, when that time did not move.
    pub fn record_write(&mut self, file_updated: Timestamp) -> (r: Result<(), StorageError>)
        ensures
            final(self).label_spec() == old(self).label_spec(),
            final(self).path_spec() == old(self).path_spec(),
            final(self).log_prefix_spec() == old(self).log_prefix_spec(),
            r is Ok == (file_updated != old(self).timestamp_spec()),
            r is Ok ==> final(self).timestamp_spec() == file_updated,
            r matches Err(e) ==> e.kind == ErrorKind::TimestampNotUpdated
                && e.label@ == old(self).label_spec()
                && final(self).timestamp_spec() == old(self).timestamp_spec(),
    {
        if file_updated == self.timestamp {
            return Err(StorageError::new(&self.label, ErrorKind::TimestampNotUpdated));
        }
        self.timestamp = file_updated;
        Ok(())
    }
}

} // verus!

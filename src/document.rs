//! Property documents: open-ended structured values, and the recursive merge
//! that folds a partial update into a stored document.
use vstd::prelude::*;
use crate::entries::{distinct_keys, entries_map, find_entry, has_key, lemma_entry_in_map, lemma_push_entry, lemma_remove_entry};

verus! {

/// A structured value. Numbers keep their textual form.
#[derive(Debug, PartialEq, Eq)]
pub enum Document {
    Null,
    Bool(bool),
    Number(String),
    Text(String),
    Array(Vec<Document>),
    Object(Vec<(String, Document)>),
}

/// Every object reachable through objects has distinct keys.
pub open spec fn doc_wf(d: Document) -> bool
    decreases d,
{
    match d {
        Document::Object(v) => distinct_keys(v@) && entries_wf(v@),
        _ => true,
    }
}

/// Every value among the entries `s` is well formed.
pub open spec fn entries_wf(s: Seq<(String, Document)>) -> bool
    decreases s,
{
    if s.len() == 0 {
        true
    } else {
        doc_wf(s.last().1) && entries_wf(s.drop_last())
    }
}

/// `r` is `new` merged into `old`: where both are objects, `r` is an object
/// with the keys of both; a key of `old` alone keeps its value, a key of
/// `new` alone takes its value, and a key of both holds the two values
/// merged. Anywhere else `r` is `new`.
pub open spec fn merged_into(old: Document, new: Document, r: Document) -> bool
    decreases new,
{
    match new {
        Document::Object(n) => match old {
            Document::Object(o) => match r {
                Document::Object(rv) => {
                    let om = entries_map(o@);
                    let nm = entries_map(n@);
                    let rm = entries_map(rv@);
                    &&& distinct_keys(rv@)
                    &&& rm.dom() == om.dom().union(nm.dom())
                    &&& forall|k: Seq<char>| om.contains_key(k) && !nm.contains_key(k) ==> #[trigger] rm[k] == om[k]
                    &&& entries_merged(om, n@, rm)
                },
                _ => false,
            },
            _ => r == new,
        },
        _ => r == new,
    }
}

/// Each entry of `s` appears in `rm` merged into its counterpart in `om`,
/// or as it is where `om` has no such key.
pub open spec fn entries_merged(om: Map<Seq<char>, Document>, s: Seq<(String, Document)>, rm: Map<Seq<char>, Document>) -> bool
    decreases s,
{
    if s.len() == 0 {
        true
    } else {
        let e = s.last();
        &&& if om.contains_key(e.0@) {
            merged_into(om[e.0@], e.1, rm[e.0@])
        } else {
            rm[e.0@] == e.1
        }
        &&& entries_merged(om, s.drop_last(), rm)
    }
}

impl Document {
    /// The value under `key` when this is an object holding that key.
    pub fn get(&self, key: &String) -> (r: Option<&Document>)
        requires
            doc_wf(*self),
        ensures
            match *self {
                Document::Object(v) => {
                    &&& r is Some == entries_map(v@).contains_key(key@)
                    &&& r matches Some(d) ==> *d == entries_map(v@)[key@]
                },
                _ => r is None,
            },
    {
        match self {
            Document::Object(v) => match find_entry(v, key) {
                Some(i) => {
                    proof {
                        lemma_entry_in_map(v@, i as int);
                    }
                    Some(&v[i].1)
                },
                None => None,
            },
            _ => None,
        }
    }
}

proof fn lemma_entries_wf_index(s: Seq<(String, Document)>, i: int)
    requires
        entries_wf(s),
        0 <= i < s.len(),
    ensures
        doc_wf(s[i].1),
    decreases s.len(),
{
    if i < s.len() - 1 {
        assert(s.drop_last()[i] == s[i]);
        lemma_entries_wf_index(s.drop_last(), i);
    }
}

proof fn lemma_map_value_wf(s: Seq<(String, Document)>, k: Seq<char>)
    requires
        entries_wf(s),
        distinct_keys(s),
        entries_map(s).contains_key(k),
    ensures
        doc_wf(entries_map(s)[k]),
{
    let i = choose|i: int| 0 <= i < s.len() && #[trigger] s[i].0@ == k;
    lemma_entry_in_map(s, i);
    lemma_entries_wf_index(s, i);
}

/// Changing `rm` away from the keys of `s` keeps `entries_merged`.
proof fn lemma_entries_merged_frame(
    om: Map<Seq<char>, Document>,
    s: Seq<(String, Document)>,
    rm: Map<Seq<char>, Document>,
    rm2: Map<Seq<char>, Document>,
)
    requires
        entries_merged(om, s, rm),
        forall|i: int| 0 <= i < s.len() ==> rm2[#[trigger] s[i].0@] == rm[s[i].0@],
    ensures
        entries_merged(om, s, rm2),
    decreases s.len(),
{
    if s.len() > 0 {
        let t = s.drop_last();
        assert forall|i: int| 0 <= i < t.len() implies rm2[#[trigger] t[i].0@] == rm[t[i].0@] by {
            assert(t[i] == s[i]);
        }
        lemma_entries_merged_frame(om, t, rm, rm2);
        assert(s[s.len() - 1] == s.last());
    }
}

/// Merges `new` into `old`.
pub fn merge(old: Document, new: Document) -> (r: Document)
    requires
        doc_wf(old),
        doc_wf(new),
    ensures
        merged_into(old, new, r),
{
    let ghost top = new;
    merge_below(old, new, Ghost(top))
}

fn merge_below(old: Document, new: Document, Ghost(top): Ghost<Document>) -> (r: Document)
    requires
        doc_wf(old),
        doc_wf(new),
        new == top,
    ensures
        merged_into(old, new, r),
    decreases top,
{
    let ghost new0 = new;
    let ghost old0 = old;
    let (o, n) = match new {
        Document::Object(n) => match old {
            Document::Object(o) => (o, n),
            _ => {
                return Document::Object(n);
            },
        },
        other => {
            return other;
        },
    };
    let ghost om = entries_map(o@);
    let ghost nm = entries_map(n@);
    let ghost n0 = n@;
    let ghost nv = n;
    proof {
        assert(new0 == Document::Object(n));
        assert(old0 == Document::Object(o));
        assert(entries_map(Seq::<(String, Document)>::empty()) =~= Map::<Seq<char>, Document>::empty());
    }
    let mut rest_old = o;
    let mut out: Vec<(String, Document)> = Vec::new();
    let len = n.len();
    let mut pending = n;
    let mut j: usize = 0;
    while j < len
        invariant
            len == n0.len(),
            j <= len,
            pending@ == n0.subrange(j as int, len as int),
            nv@ == n0,
            new0 == Document::Object(nv),
            new0 == top,
            distinct_keys(n0),
            entries_wf(n0),
            nm == entries_map(n0),
            distinct_keys(rest_old@),
            forall|k: Seq<char>| #[trigger] entries_map(rest_old@).contains_key(k) <==>
                (om.contains_key(k) && !has_key(n0.subrange(0, j as int), k)),
            forall|k: Seq<char>| #[trigger] entries_map(rest_old@).contains_key(k) ==> entries_map(rest_old@)[k] == om[k],
            entries_wf(o@),
            distinct_keys(o@),
            om == entries_map(o@),
            distinct_keys(out@),
            forall|k: Seq<char>| #[trigger] entries_map(out@).contains_key(k) <==> has_key(n0.subrange(0, j as int), k),
            entries_merged(om, n0.subrange(0, j as int), entries_map(out@)),
        decreases len - j,
    {
        let (key, value) = pending.remove(0);
        let ghost prefix = n0.subrange(0, j as int);
        let ghost next = n0.subrange(0, j + 1);
        proof {
            assert(n0[j as int] == (key, value));
            assert(pending@ =~= n0.subrange(j + 1, len as int));
            assert(next.drop_last() =~= prefix);
            assert(next.last() == (key, value));
            assert forall|i: int| 0 <= i < prefix.len() implies #[trigger] prefix[i].0@ != key@ by {
                assert(prefix[i] == n0[i]);
                assert(n0[i].0@ != n0[j as int].0@);
            }
            assert(!has_key(prefix, key@));
            assert(!entries_map(out@).contains_key(key@));
            assert forall|i: int| 0 <= i < out@.len() implies #[trigger] out@[i].0@ != key@ by {
                lemma_entry_in_map(out@, i);
            }
            lemma_entries_wf_index(n0, j as int);
        }
        let ghost out_before = entries_map(out@);
        let ghost rest_before = entries_map(rest_old@);
        let merged_value = match find_entry(&rest_old, &key) {
            Some(i) => {
                proof {
                    lemma_entry_in_map(rest_old@, i as int);
                    lemma_remove_entry(rest_old@, i as int);
                    lemma_map_value_wf(o@, key@);
                }
                let (_, ov) = rest_old.remove(i);
                proof {
                    assert(om.contains_key(key@));
                    assert(om[key@] == ov);
                    lemma_entry_decreases(new0, nv, j as int);
                    assert(nv@[j as int].1 == value);
                    assert(decreases_to!(top => value));
                }
                merge_below(ov, value, Ghost(value))
            },
            None => {
                proof {
                    if om.contains_key(key@) {
                        assert(rest_before.contains_key(key@));
                    }
                }
                value
            },
        };
        proof {
            lemma_push_entry(out@, key, merged_value);
        }
        out.push((key, merged_value));
        proof {
            let rm = entries_map(out@);
            assert(rm == out_before.insert(key@, merged_value));
            assert forall|i: int| 0 <= i < prefix.len() implies rm[#[trigger] prefix[i].0@] == out_before[prefix[i].0@] by {
                assert(prefix[i].0@ != key@);
            }
            lemma_entries_merged_frame(om, prefix, out_before, rm);
            assert(entries_merged(om, next, rm));
            assert forall|k: Seq<char>| #[trigger] rm.contains_key(k) <==> has_key(next, k) by {
                if has_key(next, k) {
                    let a = choose|a: int| 0 <= a < next.len() && #[trigger] next[a].0@ == k;
                    if a < prefix.len() {
                        assert(prefix[a] == next[a]);
                    }
                }
                if has_key(prefix, k) {
                    let a = choose|a: int| 0 <= a < prefix.len() && #[trigger] prefix[a].0@ == k;
                    assert(next[a] == prefix[a]);
                }
                assert(next[j as int].0@ == key@);
            }
            assert forall|k: Seq<char>| #[trigger] entries_map(rest_old@).contains_key(k) <==>
                (om.contains_key(k) && !has_key(next, k)) by {
                if has_key(next, k) && !has_key(prefix, k) {
                    let a = choose|a: int| 0 <= a < next.len() && #[trigger] next[a].0@ == k;
                    if a < prefix.len() {
                        assert(prefix[a] == next[a]);
                    }
                    assert(k == key@);
                }
                if has_key(prefix, k) {
                    let a = choose|a: int| 0 <= a < prefix.len() && #[trigger] prefix[a].0@ == k;
                    assert(next[a] == prefix[a]);
                }
                assert(next[j as int].0@ == key@);
            }
        }
        j = j + 1;
    }
    proof {
        assert(n0.subrange(0, len as int) =~= n0);
    }
    while rest_old.len() > 0
        invariant
            distinct_keys(rest_old@),
            distinct_keys(out@),
            nm == entries_map(n0),
            distinct_keys(n0),
            forall|k: Seq<char>| #[trigger] entries_map(rest_old@).contains_key(k) ==>
                om.contains_key(k) && !nm.contains_key(k) && !entries_map(out@).contains_key(k)
                && entries_map(rest_old@)[k] == om[k],
            forall|k: Seq<char>| #[trigger] entries_map(out@).contains_key(k) ==> om.contains_key(k) || nm.contains_key(k),
            forall|k: Seq<char>| om.contains_key(k) || nm.contains_key(k) ==>
                #[trigger] entries_map(out@).contains_key(k) || entries_map(rest_old@).contains_key(k),
            forall|k: Seq<char>| #[trigger] entries_map(out@).contains_key(k) && om.contains_key(k) && !nm.contains_key(k)
                ==> entries_map(out@)[k] == om[k],
            forall|i: int| 0 <= i < n0.len() ==> #[trigger] entries_map(out@).contains_key(n0[i].0@),
            entries_merged(om, n0, entries_map(out@)),
        decreases rest_old@.len(),
    {
        let ghost out_before = entries_map(out@);
        let last = (rest_old.len() - 1) as usize;
        proof {
            lemma_entry_in_map(rest_old@, last as int);
            lemma_remove_entry(rest_old@, last as int);
        }
        let e = rest_old.remove(last);
        proof {
            assert(!out_before.contains_key(e.0@));
            assert forall|i: int| 0 <= i < out@.len() implies #[trigger] out@[i].0@ != e.0@ by {
                lemma_entry_in_map(out@, i);
            }
            lemma_push_entry(out@, e.0, e.1);
        }
        out.push(e);
        proof {
            let rm = entries_map(out@);
            assert forall|i: int| 0 <= i < n0.len() implies rm[#[trigger] n0[i].0@] == out_before[n0[i].0@] by {
                lemma_entry_in_map(n0, i);
                assert(nm.contains_key(n0[i].0@));
            }
            lemma_entries_merged_frame(om, n0, out_before, rm);
        }
    }
    proof {
        let rm = entries_map(out@);
        assert(rm.dom() =~= om.dom().union(nm.dom()));
        assert(merged_into(old0, new0, Document::Object(out)));
    }
    Document::Object(out)
}

proof fn lemma_entry_decreases(d: Document, v: Vec<(String, Document)>, i: int)
    requires
        d == Document::Object(v),
        0 <= i < v@.len(),
    ensures
        decreases_to!(d => v@[i].1),
{
    let w = d->Object_0;
    assert(w == v);
    assert(decreases_to!(d => w));
    assert(decreases_to!(w => w@));
    assert(decreases_to!(w@ => w@[i]));
    assert(decreases_to!(w@[i] => w@[i].1));
    assert(decreases_to!(d => w@[i].1));
}

} // verus!

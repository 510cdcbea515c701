//! An in-memory storage backend: the simplest implementation of the
//! storage port, holding the write log as a vector. It backs tests and
//! any deployment that does not need durability; any object store can
//! be substituted for it behind the same port.
use vstd::prelude::*;

use vstd::slice::slice_to_vec;

use crate::codec::{encode_stored_span, parse_stored_span};
use crate::error::StorageError;
use crate::span::SpanData;
use crate::storage::{
    batch_entries, entries_newest_first, full_key, log_has_key, make_full_key, reads_latest,
    span_key_of, span_records, span_views, str_eq, to_stored_span, SpanEntry, StorageWriter,
    StoredSpan,
};

verus! {

/// In-memory storage: a write log of full keys and record bytes, under
/// a configured prefix. Writes are immediately durable, so `flush` has
/// nothing to do; an entry's modification stamp is its position in the
/// log.
pub struct MemStorageWriter {
    /// Key prefix for all stored objects.
    prefix: String,
    /// The write log: full keys with their bytes, oldest first.
    objects: Vec<(String, Vec<u8>)>,
}

/// Whether any listed entry already carries the given key.
fn holds_key(out: &Vec<SpanEntry>, key: &str) -> (r: bool)
    ensures
        r == exists|t: int| 0 <= t < out@.len() && (#[trigger] out@[t]).key@ == key@,
{
    let mut t: usize = 0;
    while t < out.len()
        invariant
            0 <= t <= out@.len(),
            forall|u: int| 0 <= u < t ==> (#[trigger] out@[u]).key@ != key@,
        decreases out@.len() - t,
    {
        if str_eq(out[t].key.as_str(), key) {
            return true;
        }
        t = t + 1;
    }
    false
}

impl MemStorageWriter {
    /// Creates an empty in-memory store with the given key prefix.
    pub fn new(prefix: String) -> (r: Self)
        ensures
            r.contents() == Seq::<(Seq<char>, Seq<u8>)>::empty(),
            r.key_prefix() == prefix@,
    {
        let r = MemStorageWriter { prefix, objects: Vec::new() };
        proof {
            assert(r.contents() =~= Seq::<(Seq<char>, Seq<u8>)>::empty());
        }
        r
    }

    /// Appends one object to the write log; in-memory writes cannot
    /// fail.
    fn put(&mut self, key: &str, data: &[u8])
        ensures
            final(self).key_prefix() == old(self).key_prefix(),
            final(self).contents() == old(self).contents().push(
                (full_key(old(self).key_prefix(), key@), data@),
            ),
    {
        let fk = make_full_key(self.prefix.as_str(), key);
        let bytes = slice_to_vec(data);
        self.objects.push((fk, bytes));
        proof {
            assert(self.contents() =~= old(self).contents().push(
                (full_key(old(self).key_prefix(), key@), data@),
            ));
        }
    }
}

impl StorageWriter for MemStorageWriter {
    closed spec fn contents(&self) -> Seq<(Seq<char>, Seq<u8>)> {
        self.objects@.map_values(|e: (String, Vec<u8>)| (e.0@, e.1@))
    }

    closed spec fn key_prefix(&self) -> Seq<char> {
        self.prefix@
    }

    fn write(&mut self, key: &str, data: &[u8]) -> (r: Result<(), StorageError>) {
        self.put(key, data);
        Ok(())
    }

    fn write_batch(&mut self, entries: Vec<(String, Vec<u8>)>) -> (r: Result<(), StorageError>) {
        let ghost c0 = self.contents();
        let ghost prefix = self.key_prefix();
        let mut i: usize = 0;
        while i < entries.len()
            invariant
                0 <= i <= entries@.len(),
                self.key_prefix() == prefix,
                self.contents() == c0 + batch_entries(prefix, entries@).take(i as int),
            decreases entries@.len() - i,
        {
            let e = &entries[i];
            self.put(e.0.as_str(), e.1.as_slice());
            proof {
                assert(batch_entries(prefix, entries@).take(i as int + 1) =~= batch_entries(
                    prefix,
                    entries@,
                ).take(i as int).push(batch_entries(prefix, entries@)[i as int]));
                assert(self.contents() =~= c0 + batch_entries(prefix, entries@).take(i as int + 1));
            }
            i = i + 1;
        }
        proof {
            assert(batch_entries(prefix, entries@).take(entries@.len() as int) =~= batch_entries(
                prefix,
                entries@,
            ));
        }
        Ok(())
    }

    fn flush(&mut self) -> (r: Result<(), StorageError>) {
        Ok(())
    }

    fn write_spans(&mut self, spans: Vec<SpanData>) -> (r: Result<(), StorageError>) {
        let ghost c0 = self.contents();
        let ghost prefix = self.key_prefix();
        let ghost views = span_views(spans@);
        let mut i: usize = 0;
        while i < spans.len()
            invariant
                0 <= i <= spans@.len(),
                views == span_views(spans@),
                self.key_prefix() == prefix,
                self.contents() == c0 + span_records(prefix, views).take(i as int),
            decreases spans@.len() - i,
        {
            let stored = to_stored_span(&spans[i]);
            let key = span_key_of(&stored);
            let data = encode_stored_span(&stored);
            self.put(key.as_str(), data.as_slice());
            proof {
                assert(span_records(prefix, views)[i as int] == (
                    full_key(prefix, key@),
                    data@,
                ));
                assert(span_records(prefix, views).take(i as int + 1) =~= span_records(
                    prefix,
                    views,
                ).take(i as int).push(span_records(prefix, views)[i as int]));
                assert(self.contents() =~= c0 + span_records(prefix, views).take(i as int + 1));
            }
            i = i + 1;
        }
        proof {
            assert(span_records(prefix, views).take(spans@.len() as int) =~= span_records(
                prefix,
                views,
            ));
        }
        Ok(())
    }

    fn list(&self, limit: usize) -> (r: Result<Vec<SpanEntry>, StorageError>) {
        let n = self.objects.len();
        let mut out: Vec<SpanEntry> = Vec::new();
        let mut i: usize = 0;
        // Walk the log newest first, keeping each key's newest entry
        // only, until the cap is reached.
        while i < n && out.len() < limit
            invariant
                0 <= i <= n,
                n == self.objects@.len(),
                out@.len() <= limit,
                forall|t: int|
                    0 <= t < out@.len() ==> n - i <= (#[trigger] out@[t]).last_modified < n,
                forall|t: int|
                    0 <= t < out@.len() ==> (#[trigger] out@[t]).key@ == self.contents()[out@[t].last_modified as int].0,
                forall|t1: int, t2: int|
                    0 <= t1 < t2 < out@.len() ==> (#[trigger] out@[t1]).last_modified > (
                    #[trigger] out@[t2]).last_modified,
                forall|t1: int, t2: int|
                    0 <= t1 < t2 < out@.len() ==> (#[trigger] out@[t1]).key@ != (
                    #[trigger] out@[t2]).key@,
            decreases n - i,
        {
            let idx = n - 1 - i;
            if !holds_key(&out, self.objects[idx].0.as_str()) {
                let entry = SpanEntry {
                    key: self.objects[idx].0.clone(),
                    last_modified: idx as u64,
                };
                out.push(entry);
            }
            i = i + 1;
        }
        proof {
            assert(entries_newest_first(out@));
            assert forall|t: int| 0 <= t < out@.len() implies log_has_key(
                self.contents(),
                (#[trigger] out@[t]).key@,
            ) by {
                let s = out@[t].last_modified as int;
                assert(0 <= s < self.contents().len() && (self.contents()[s]).0 == out@[t].key@);
            }
        }
        Ok(out)
    }

    fn read(&self, key: &str) -> (r: Result<StoredSpan, StorageError>) {
        let n = self.objects.len();
        let mut i: usize = 0;
        while i < n
            invariant
                0 <= i <= n,
                n == self.objects@.len(),
                forall|t: int|
                    n - i <= t < n ==> (#[trigger] self.contents()[t]).0 != key@,
            decreases n - i,
        {
            let idx = n - 1 - i;
            if str_eq(self.objects[idx].0.as_str(), key) {
                match parse_stored_span(self.objects[idx].1.as_slice()) {
                    Some(s) => {
                        proof {
                            assert((#[trigger] self.contents()[idx as int]).0 == key@);
                            assert(reads_latest(self.contents(), key@, s@));
                        }
                        return Ok(s);
                    },
                    None => {
                        return Err(StorageError::ReadFailed("stored bytes are not a span record".to_owned()));
                    },
                }
            } else {
                proof {
                    assert((#[trigger] self.contents()[idx as int]).0 != key@);
                }
            }
            i = i + 1;
        }
        Err(StorageError::ReadFailed("no object under this key".to_owned()))
    }
}

} // verus!

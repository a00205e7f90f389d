//! Bulk loading: applying batches of (name, flag) records to a toggle
//! container, from already-parsed records, from a YAML mapping document, or
//! from whitespace-separated line records. A record whose name matches no
//! declared toggle, a mapping entry that holds no (name, integer) pair, and
//! a line record that cannot be read, are skipped; no record ever halts a
//! batch.

use vstd::prelude::*;

verus! {

use crate::{EnumToggles, ToggleView, set_by_name_view};
use crate::text::{parse_record, parse_line, split_lines, split_records, tokenize, tokens_of};

/// One (name, flag) record applied: the named toggle is set to whether the
/// flag is nonzero.
pub open spec fn apply_record(v: ToggleView, rec: (Seq<char>, i64)) -> ToggleView {
    set_by_name_view(v, rec.0, rec.1 != 0)
}

/// A batch of (name, flag) records applied in order.
pub open spec fn apply_records(v: ToggleView, recs: Seq<(Seq<char>, i64)>) -> ToggleView
    decreases recs.len(),
{
    if recs.len() == 0 {
        v
    } else {
        apply_records(apply_record(v, recs[0]), recs.drop_first())
    }
}

/// One line record applied: a line with a reading sets the named toggle, and
/// a line without one changes nothing.
pub open spec fn apply_parsed_line(v: ToggleView, line: Seq<char>) -> ToggleView {
    match parse_record(line) {
        Some(p) => set_by_name_view(v, p.0, p.1),
        None => v,
    }
}

/// A batch of line records applied in order.
pub open spec fn apply_lines(v: ToggleView, lines: Seq<Seq<char>>) -> ToggleView
    decreases lines.len(),
{
    if lines.len() == 0 {
        v
    } else {
        apply_lines(apply_parsed_line(v, lines[0]), lines.drop_first())
    }
}

/// One raw mapping entry applied: an entry that holds a string key and an
/// integer value sets the named toggle to whether the integer is nonzero;
/// an entry missing either reading changes nothing.
pub open spec fn apply_raw_record(
    v: ToggleView,
    rec: (Option<Seq<char>>, Option<i64>),
) -> ToggleView {
    match rec {
        (Some(name), Some(flag)) => set_by_name_view(v, name, flag != 0),
        _ => v,
    }
}

/// A batch of raw mapping entries applied in order.
pub open spec fn apply_raw_records(
    v: ToggleView,
    recs: Seq<(Option<Seq<char>>, Option<i64>)>,
) -> ToggleView
    decreases recs.len(),
{
    if recs.len() == 0 {
        v
    } else {
        apply_raw_records(apply_raw_record(v, recs[0]), recs.drop_first())
    }
}

/// A malformed mapping entry: one whose key is no string or whose value is
/// no integer, so that no (name, flag) pair can be read from it.
pub open spec fn raw_record_is_malformed(rec: (Option<Seq<char>>, Option<i64>)) -> bool {
    rec.0 is None || rec.1 is None
}

/// How many entries of a batch are malformed.
pub open spec fn count_malformed_records(recs: Seq<(Option<Seq<char>>, Option<i64>)>) -> int
    decreases recs.len(),
{
    if recs.len() == 0 {
        0
    } else {
        (if raw_record_is_malformed(recs[0]) {
            1int
        } else {
            0int
        }) + count_malformed_records(recs.drop_first())
    }
}

/// A malformed line record: one that has fields yet no reading — a wrong
/// field count or an unreadable flag. A blank line is not a record at all.
pub open spec fn line_is_malformed(line: Seq<char>) -> bool {
    parse_record(line) is None && tokens_of(line).len() > 0
}

/// How many lines of a batch are malformed.
pub open spec fn count_malformed(lines: Seq<Seq<char>>) -> int
    decreases lines.len(),
{
    if lines.len() == 0 {
        0
    } else {
        (if line_is_malformed(lines[0]) {
            1int
        } else {
            0int
        }) + count_malformed(lines.drop_first())
    }
}

/// What YAML parsing yields for a source text: `Some` of the entries of the
/// first document's top-level mapping, in document order — each key as its
/// text where it is a string, each value as its integer where it is one —
/// when the text is well-formed YAML with such a mapping, and `None`
/// otherwise.
pub uninterp spec fn yaml_mapping_of(s: Seq<char>) -> Option<
    Seq<(Option<Seq<char>>, Option<i64>)>,
>;

/// Relies on yaml_rust's `YamlLoader::load_from_str` and the `Yaml::as_str`
/// and `Yaml::as_i64` accessors: what they yield depends on the source text
/// alone, and the entries of a `Yaml::Hash` iterate in document order.
#[verifier::external_body]
fn parse_yaml_mapping(content: &str) -> (r: Option<Vec<(Option<String>, Option<i64>)>>)
    ensures
        match r {
            Some(records) => yaml_mapping_of(content@) == Some(records.deep_view()),
            None => yaml_mapping_of(content@) is None,
        },
{
    let docs = match yaml_rust::YamlLoader::load_from_str(content) {
        Ok(docs) => docs,
        Err(_) => return None,
    };
    match docs.into_iter().next() {
        Some(yaml_rust::Yaml::Hash(h)) => Some(
            h.iter()
                .map(|(k, v)| (k.as_str().map(|s| s.to_string()), v.as_i64()))
                .collect(),
        ),
        _ => None,
    }
}

impl EnumToggles {
    /// Apply a batch of already-parsed (name, flag) records in order: each
    /// record sets the named toggle to whether its flag is nonzero, and a
    /// name that matches no declared toggle changes nothing.
    pub fn load_from_collection(&mut self, records: &Vec<(String, i64)>)
        requires
            old(self).wf(),
        ensures
            final(self).wf(),
            final(self)@ == apply_records(old(self)@, records.deep_view()),
            final(self)@.names == old(self)@.names,
    {
        let ghost recs = records.deep_view();
        let n = records.len();
        let mut i: usize = 0;
        proof {
            assert(recs.skip(0) =~= recs);
        }
        while i < n
            invariant
                i <= n,
                self.wf(),
                n == records@.len(),
                recs == records.deep_view(),
                self@.names == old(self)@.names,
                apply_records(old(self)@, recs) == apply_records(self@, recs.skip(i as int)),
            decreases n - i,
        {
            proof {
                assert(recs.skip(i as int)[0] == recs[i as int]);
                assert(recs.skip(i as int).drop_first() =~= recs.skip(i + 1));
            }
            let value = records[i].1 != 0;
            self.set_by_name(records[i].0.as_str(), value);
            i = i + 1;
        }
        proof {
            assert(recs.skip(n as int) =~= Seq::<(Seq<char>, i64)>::empty());
        }
    }

    /// Apply a batch of raw mapping entries in order: every entry that holds
    /// a string key and an integer value sets the named toggle to whether the
    /// integer is nonzero, and every entry missing either reading is skipped.
    /// Returns how many entries were skipped, so a caller can report them.
    pub fn load_from_raw_records(
        &mut self,
        records: &Vec<(Option<String>, Option<i64>)>,
    ) -> (skipped: usize)
        requires
            old(self).wf(),
        ensures
            final(self).wf(),
            final(self)@.names == old(self)@.names,
            final(self)@ == apply_raw_records(old(self)@, records.deep_view()),
            skipped == count_malformed_records(records.deep_view()),
    {
        let ghost recs = records.deep_view();
        let n = records.len();
        let mut skipped: usize = 0;
        let mut i: usize = 0;
        proof {
            assert(recs.skip(0) =~= recs);
        }
        while i < n
            invariant
                i <= n,
                skipped <= i,
                self.wf(),
                n == records@.len(),
                recs == records.deep_view(),
                self@.names == old(self)@.names,
                apply_raw_records(old(self)@, recs) == apply_raw_records(
                    self@,
                    recs.skip(i as int),
                ),
                count_malformed_records(recs) == skipped + count_malformed_records(
                    recs.skip(i as int),
                ),
            decreases n - i,
        {
            proof {
                assert(recs.skip(i as int)[0] == recs[i as int]);
                assert(recs.skip(i as int).drop_first() =~= recs.skip(i + 1));
            }
            match (&records[i].0, records[i].1) {
                (Some(name), Some(flag)) => {
                    self.set_by_name(name.as_str(), flag != 0);
                },
                _ => {
                    skipped = skipped + 1;
                },
            }
            i = i + 1;
        }
        proof {
            assert(recs.skip(n as int) =~= Seq::<(Option<Seq<char>>, Option<i64>)>::empty());
        }
        skipped
    }

    /// Set all toggle values defined in a YAML mapping document, given as
    /// text: each `name: flag` entry with a string key and an integer value
    /// sets the named toggle to whether the flag is nonzero, in document
    /// order; every other entry is skipped, and a key that matches no
    /// declared toggle changes nothing. Returns `Some` of the number of
    /// skipped entries where the text held such a mapping, so a caller can
    /// report them, and `None` — changing nothing — where it did not.
    pub fn load_from_str(&mut self, content: &str) -> (r: Option<usize>)
        requires
            old(self).wf(),
        ensures
            final(self).wf(),
            final(self)@.names == old(self)@.names,
            match yaml_mapping_of(content@) {
                Some(recs) => {
                    &&& r is Some
                    &&& r->0 == count_malformed_records(recs)
                    &&& final(self)@ == apply_raw_records(old(self)@, recs)
                },
                None => r is None && final(self)@ == old(self)@,
            },
    {
        match parse_yaml_mapping(content) {
            Some(records) => Some(self.load_from_raw_records(&records)),
            None => None,
        }
    }

    /// Bulk-load from line records, one per line of `content`, each of the
    /// form `<flag> <name>` with whitespace-separated fields: every readable
    /// record sets the named toggle to whether its decimal flag is nonzero,
    /// in order, and every other line — blank, wrong field count, unreadable
    /// flag, unknown name — is skipped without halting the batch. Returns how
    /// many malformed lines were skipped, so a caller can report them; blank
    /// lines and unknown names are tolerated silently.
    pub fn load_from_lines(&mut self, content: &str) -> (skipped: usize)
        requires
            old(self).wf(),
        ensures
            final(self).wf(),
            final(self)@.names == old(self)@.names,
            final(self)@ == apply_lines(old(self)@, split_lines(content@)),
            skipped == count_malformed(split_lines(content@)),
    {
        let lines = split_records(content);
        let ghost lseq = lines.deep_view();
        let n = lines.len();
        let mut skipped: usize = 0;
        let mut i: usize = 0;
        proof {
            assert(lseq.skip(0) =~= lseq);
        }
        while i < n
            invariant
                i <= n,
                skipped <= i,
                self.wf(),
                n == lines@.len(),
                lseq == lines.deep_view(),
                self@.names == old(self)@.names,
                apply_lines(old(self)@, lseq) == apply_lines(self@, lseq.skip(i as int)),
                count_malformed(lseq) == skipped + count_malformed(lseq.skip(i as int)),
            decreases n - i,
        {
            proof {
                assert(lseq.skip(i as int)[0] == lseq[i as int]);
                assert(lseq.skip(i as int).drop_first() =~= lseq.skip(i + 1));
            }
            let parsed = parse_line(lines[i].as_str());
            match parsed {
                Some(p) => {
                    self.set_by_name(p.0.as_str(), p.1);
                },
                None => {
                    if tokenize(lines[i].as_str()).len() > 0 {
                        skipped = skipped + 1;
                    }
                },
            }
            i = i + 1;
        }
        proof {
            assert(lseq.skip(n as int) =~= Seq::<Seq<char>>::empty());
        }
        skipped
    }
}

} // verus!

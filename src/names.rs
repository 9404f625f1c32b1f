//! A compiled pattern's group names, and the cursor that walks them.

use vstd::prelude::*;
use crate::table::{
    chain_order, decode, decode_entry, lemma_chain_order_prefix, lemma_chain_order_step,
    pair_view, result_view, EntryView, NameError, NameTable,
};

verus! {

broadcast use vstd::std_specs::vec::group_vec_axioms;

/// The named-group metadata of a compiled pattern: the engine's name table,
/// absent when the pattern names no group, and the engine's count of names.
#[derive(Debug)]
pub struct Regex {
    table: Option<NameTable>,
    num_names: usize,
}

/// The records of a table in walking order; an absent table has none.
pub open spec fn table_entries(table: Option<NameTable>) -> Seq<EntryView> {
    match table {
        Some(t) => chain_order(t@),
        None => seq![],
    }
}

/// What a full walk from `from` on yields: every pair in order, or the first
/// fault met.
pub open spec fn pairs_from(entries: Seq<EntryView>, from: int) -> Result<
    Seq<(Seq<char>, Seq<i32>)>,
    NameError,
>
    decreases entries.len() - from,
{
    if from < 0 || from >= entries.len() {
        Ok(seq![])
    } else {
        match decode(entries[from]) {
            Err(err) => Err(err),
            Ok(p) => match pairs_from(entries, from + 1) {
                Ok(rest) => Ok(seq![p] + rest),
                Err(err) => Err(err),
            },
        }
    }
}

/// Collected pairs as mathematical values.
pub open spec fn pairs_seq(v: Seq<(&str, &[i32])>) -> Seq<(Seq<char>, Seq<i32>)> {
    v.map_values(|p: (&str, &[i32])| pair_view(p))
}

/// A collected walk as mathematical values.
pub open spec fn pairs_view(r: Result<Vec<(&str, &[i32])>, NameError>) -> Result<
    Seq<(Seq<char>, Seq<i32>)>,
    NameError,
> {
    match r {
        Ok(v) => Ok(pairs_seq(v@)),
        Err(err) => Err(err),
    }
}

impl Regex {
    /// The records of the name table in walking order.
    pub closed spec fn entries(&self) -> Seq<EntryView> {
        table_entries(self.table)
    }

    /// The number of distinct names, as the engine counted them.
    pub closed spec fn name_count(&self) -> nat {
        self.num_names as nat
    }

    /// The engine's count agrees with the table: one record per name.
    pub open spec fn wf(&self) -> bool {
        self.name_count() == self.entries().len()
    }

    /// Takes the engine's name table and its count of names. The two must
    /// agree: a count that differs from the number of records is a fault.
    pub fn from_table(table: Option<NameTable>, num_names: i32) -> (r: Result<Regex, NameError>)
        ensures
            r is Ok <==> num_names as int == table_entries(table).len(),
            r is Ok ==> r->Ok_0.wf() && r->Ok_0.entries() == table_entries(table)
                && r->Ok_0.name_count() == num_names as nat,
            r is Err ==> r->Err_0 == NameError::NameCountMismatch,
    {
        if num_names < 0 {
            return Err(NameError::NameCountMismatch);
        }
        let expected = num_names as usize;
        let mut total: usize = 0;
        match &table {
            None => {},
            Some(t) => {
                let ghost bins = t@;
                let mut i: usize = 0;
                while i < t.bins.len()
                    invariant
                        bins == t@,
                        table_entries(table) == chain_order(bins),
                        i <= t.bins.len(),
                        total <= expected,
                        expected == num_names,
                        total == chain_order(bins.take(i as int)).len(),
                    decreases t.bins.len() - i,
                {
                    proof {
                        lemma_chain_order_step(bins, i as int);
                        lemma_chain_order_prefix(bins, i as int + 1, bins.len() as int);
                        assert(bins.take(bins.len() as int) =~= bins);
                    }
                    let n = t.bins[i].len();
                    assert(bins[i as int].len() == n);
                    if n > expected - total {
                        return Err(NameError::NameCountMismatch);
                    }
                    total = total + n;
                    i = i + 1;
                }
                proof {
                    assert(bins.take(bins.len() as int) =~= bins);
                }
            },
        }
        if total != expected {
            return Err(NameError::NameCountMismatch);
        }
        Ok(Regex { table, num_names: expected })
    }

    /// Returns the number of named groups in the pattern: distinct names,
    /// however many groups each labels.
    pub fn names_len(&self) -> (r: usize)
        ensures
            r == self.name_count(),
    {
        self.num_names
    }

    /// Returns a fresh iterator over the named groups, each as its name and
    /// its group indices.
    pub fn names<'r>(&'r self) -> (r: Names<'r>)
        ensures
            r.wf(),
            r@.entries == self.entries(),
            r@.cursor == 0,
    {
        let table = match &self.table {
            Some(t) => Some(t),
            None => None,
        };
        Names { table, bin_idx: 0, entry: None }
    }
}

/// An iterator over the named groups of a pattern, each as the name and the
/// group indices, borrowed from the pattern for `'r`.
///
/// It walks the buckets in index order and each chain from head to tail.
/// `bin_idx` counts the buckets entered so far; `entry` is the position of the
/// pending record in the last bucket entered, if one is pending.
#[derive(Debug)]
pub struct Names<'r> {
    table: Option<&'r NameTable>,
    bin_idx: usize,
    entry: Option<usize>,
}

/// Where a walk stands: every record it walks, and how many it has passed.
pub struct NamesView {
    pub entries: Seq<EntryView>,
    pub cursor: int,
}

impl<'r> View for Names<'r> {
    type V = NamesView;

    closed spec fn view(&self) -> NamesView {
        match self.table {
            None => NamesView { entries: seq![], cursor: 0 },
            Some(t) => NamesView {
                entries: chain_order(t@),
                cursor: match self.entry {
                    Some(p) => chain_order(t@.take(self.bin_idx - 1)).len() + p,
                    None => chain_order(t@.take(self.bin_idx as int)).len() as int,
                },
            },
        }
    }
}

impl<'r> Names<'r> {
    /// The cursor stands inside the table, and a pending record exists.
    pub closed spec fn wf(&self) -> bool {
        match self.table {
            None => self.bin_idx == 0 && self.entry is None,
            Some(t) => self.bin_idx <= t.bins.len() && match self.entry {
                Some(p) => self.bin_idx >= 1 && p < t.bins[self.bin_idx - 1].len(),
                None => true,
            },
        }
    }

    /// A walk never stands past its last record.
    pub proof fn lemma_cursor_bounded(&self)
        requires
            self.wf(),
        ensures
            0 <= self@.cursor <= self@.entries.len(),
    {
        if let Some(t) = self.table {
            let bins = t@;
            assert(bins.take(bins.len() as int) =~= bins);
            match self.entry {
                Some(p) => {
                    lemma_chain_order_step(bins, self.bin_idx - 1);
                    lemma_chain_order_prefix(bins, self.bin_idx as int, bins.len() as int);
                },
                None => {
                    lemma_chain_order_prefix(bins, self.bin_idx as int, bins.len() as int);
                },
            }
        }
    }

    /// Yields the next record decoded, `None` once every record has been
    /// yielded. A record that cannot be decoded yields its fault and ends the
    /// walk.
    pub fn next(&mut self) -> (r: Option<Result<(&'r str, &'r [i32]), NameError>>)
        requires
            old(self).wf(),
        ensures
            final(self).wf(),
            final(self)@.entries == old(self)@.entries,
            old(self)@.cursor >= old(self)@.entries.len() ==> {
                &&& r is None
                &&& final(self)@ == old(self)@
            },
            old(self)@.cursor < old(self)@.entries.len() ==> {
                let d = decode(old(self)@.entries[old(self)@.cursor]);
                &&& r is Some
                &&& result_view(r->0) == d
                &&& final(self)@.cursor == if d is Ok {
                    old(self)@.cursor + 1
                } else {
                    old(self)@.entries.len() as int
                }
            },
    {
        proof {
            old(self).lemma_cursor_bounded();
        }
        let t: &'r NameTable = match self.table {
            Some(t) => t,
            None => {
                return None;
            },
        };
        let ghost bins = t@;
        let ghost start = self@;
        proof {
            assert(bins.take(bins.len() as int) =~= bins);
        }
        while self.entry.is_none()
            invariant
                self.table == Some(t),
                bins == t@,
                bins.take(bins.len() as int) == bins,
                self.wf(),
                self@ == start,
                start == old(self)@,
                0 <= start.cursor <= start.entries.len(),
            decreases t.bins.len() - self.bin_idx,
        {
            if self.bin_idx >= t.bins.len() {
                return None;
            }
            let b = self.bin_idx;
            proof {
                lemma_chain_order_step(bins, b as int);
            }
            self.bin_idx = b + 1;
            if t.bins[b].len() > 0 {
                self.entry = Some(0);
            }
        }
        let b = self.bin_idx - 1;
        let p = match self.entry {
            Some(p) => p,
            None => 0,
        };
        proof {
            lemma_chain_order_step(bins, b as int);
            lemma_chain_order_prefix(bins, b + 1, bins.len() as int);
            assert(start.entries[start.cursor] == bins[b as int][p as int]);
        }
        let r = decode_entry(&t.bins[b][p]);
        match r {
            Ok(_) => {
                if p + 1 < t.bins[b].len() {
                    self.entry = Some(p + 1);
                } else {
                    self.entry = None;
                }
            },
            Err(_) => {
                self.bin_idx = t.bins.len();
                self.entry = None;
            },
        }
        Some(r)
    }

    /// Walks the rest of the table: every remaining pair in order, or the
    /// first fault met.
    pub fn collect_all(self) -> (r: Result<Vec<(&'r str, &'r [i32])>, NameError>)
        requires
            self.wf(),
        ensures
            pairs_view(r) == pairs_from(self@.entries, self@.cursor),
    {
        let ghost entries = self@.entries;
        let ghost c0 = self@.cursor;
        proof {
            self.lemma_cursor_bounded();
        }
        let mut it = self;
        let mut out: Vec<(&'r str, &'r [i32])> = Vec::new();
        loop
            invariant
                it.wf(),
                it@.entries == entries,
                entries == self@.entries,
                c0 == self@.cursor,
                0 <= it@.cursor <= entries.len(),
                pairs_from(entries, c0) == match pairs_from(entries, it@.cursor) {
                    Ok(rest) => Ok(pairs_seq(out@) + rest),
                    Err(err) => Err(err),
                },
            decreases entries.len() - it@.cursor,
        {
            let ghost c = it@.cursor;
            let ghost before = pairs_seq(out@);
            match it.next() {
                None => {
                    assert(before + seq![] =~= before);
                    return Ok(out);
                },
                Some(Err(err)) => {
                    assert(decode(entries[c]) == Err::<(Seq<char>, Seq<i32>), NameError>(err));
                    return Err(err);
                },
                Some(Ok(p)) => {
                    out.push(p);
                    proof {
                        it.lemma_cursor_bounded();
                        let after = pairs_seq(out@);
                        assert(after =~= before.push(pair_view(p)));
                        if let Ok(rest) = pairs_from(entries, c + 1) {
                            assert(before + (seq![pair_view(p)] + rest) =~= after + rest);
                        }
                    }
                },
            }
        }
    }
}

} // verus!

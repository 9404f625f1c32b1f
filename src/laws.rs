//! What every walk over one pattern's names has in common.

use vstd::prelude::*;
use vstd::utf8::{decode_utf8, decode_utf8_encode_utf8};
use crate::names::{pairs_from, Names, Regex};
use crate::table::{decode, entry_fault, EntryView};

verus! {

/// From any point on, a walk over fault-free records yields each remaining
/// record once, decoded, in walking order.
pub proof fn lemma_pairs_from_clean(entries: Seq<EntryView>, from: int)
    requires
        0 <= from <= entries.len(),
        forall|k: int| 0 <= k < entries.len() ==> entry_fault(#[trigger] entries[k]) is None,
    ensures
        pairs_from(entries, from) is Ok,
        pairs_from(entries, from)->Ok_0.len() == entries.len() - from,
        forall|k: int|
            0 <= k < entries.len() - from ==> pairs_from(entries, from)->Ok_0[k] == decode(
                #[trigger] entries[from + k],
            )->Ok_0,
    decreases entries.len() - from,
{
    if from < entries.len() {
        lemma_pairs_from_clean(entries, from + 1);
        assert(entry_fault(entries[from]) is None);
        let rest = pairs_from(entries, from + 1)->Ok_0;
        let all = pairs_from(entries, from)->Ok_0;
        assert forall|k: int| 0 <= k < entries.len() - from implies all[k] == decode(
            #[trigger] entries[from + k],
        )->Ok_0 by {
            if k > 0 {
                assert(rest[k - 1] == decode(entries[(from + 1) + (k - 1)])->Ok_0);
                assert((from + 1) + (k - 1) == from + k);
            }
        }
    }
}

/// A pattern names no group exactly when the engine counts no names, and then
/// a walk over it yields nothing at all.
pub proof fn lemma_no_named_groups(re: &Regex)
    requires
        re.wf(),
    ensures
        re.name_count() == 0 <==> re.entries().len() == 0,
        re.entries().len() == 0 ==> pairs_from(re.entries(), 0) is Ok && pairs_from(
            re.entries(),
            0,
        )->Ok_0.len() == 0,
{
}

/// A pattern with two distinct names, one of which labels two groups and the
/// other one: the engine counts two names, a walk yields two pairs, the shared
/// name with both of its groups and the other name with its single group.
pub proof fn lemma_two_names_one_shared(re: &Regex, shared: int)
    requires
        re.wf(),
        re.entries().len() == 2,
        shared == 0 || shared == 1,
        forall|k: int| 0 <= k < 2 ==> entry_fault(#[trigger] re.entries()[k]) is None,
        re.entries()[0].name != re.entries()[1].name,
        re.entries()[shared].back_num == 2,
        re.entries()[1 - shared].back_num == 1,
    ensures
        re.name_count() == 2,
        pairs_from(re.entries(), 0) is Ok,
        pairs_from(re.entries(), 0)->Ok_0.len() == 2,
        pairs_from(re.entries(), 0)->Ok_0[0].0 != pairs_from(re.entries(), 0)->Ok_0[1].0,
        pairs_from(re.entries(), 0)->Ok_0[shared].1 == re.entries()[shared].back_refs,
        pairs_from(re.entries(), 0)->Ok_0[shared].1.len() == 2,
        pairs_from(re.entries(), 0)->Ok_0[1 - shared].1 == seq![
            re.entries()[1 - shared].back_ref1,
        ],
{
    let e = re.entries();
    lemma_pairs_from_clean(e, 0);
    let pairs = pairs_from(e, 0)->Ok_0;
    assert(pairs[0] == decode(e[0int + 0])->Ok_0);
    assert(pairs[1] == decode(e[0int + 1])->Ok_0);
    assert(entry_fault(e[0]) is None);
    assert(entry_fault(e[1]) is None);
    decode_utf8_encode_utf8(e[0].name);
    decode_utf8_encode_utf8(e[1].name);
    assert(decode_utf8(e[0].name) != decode_utf8(e[1].name));
}

/// Fresh walks over one pattern stand at the same place over the same records,
/// so each yields the same pairs in the same order as any other.
pub proof fn lemma_fresh_walks_agree<'a, 'b>(re: &Regex, a: &Names<'a>, b: &Names<'b>)
    requires
        a.wf(),
        b.wf(),
        a@.entries == re.entries(),
        a@.cursor == 0,
        b@.entries == re.entries(),
        b@.cursor == 0,
    ensures
        a@ == b@,
        pairs_from(a@.entries, a@.cursor) == pairs_from(b@.entries, b@.cursor),
        pairs_from(a@.entries, a@.cursor) == pairs_from(re.entries(), 0),
{
}

/// A walk over fault-free records yields each record exactly once, none
/// skipped and none repeated: the k-th pair is the k-th record decoded, and
/// there are as many pairs as the engine counts names.
pub proof fn lemma_each_record_once(re: &Regex)
    requires
        re.wf(),
        forall|k: int| 0 <= k < re.entries().len() ==> entry_fault(#[trigger] re.entries()[k]) is None,
    ensures
        pairs_from(re.entries(), 0) is Ok,
        pairs_from(re.entries(), 0)->Ok_0.len() == re.name_count(),
        forall|k: int|
            0 <= k < re.entries().len() ==> pairs_from(re.entries(), 0)->Ok_0[k] == decode(
                #[trigger] re.entries()[k],
            )->Ok_0,
{
    let e = re.entries();
    lemma_pairs_from_clean(e, 0);
    assert forall|k: int| 0 <= k < e.len() implies pairs_from(e, 0)->Ok_0[k] == decode(
        #[trigger] e[k],
    )->Ok_0 by {
        assert(e[0 + k] == e[k]);
    }
}

/// A walk stopped anywhere leaves the pattern's records as they were: a fresh
/// walk taken afterwards yields the full sequence of pairs.
pub proof fn lemma_early_stop<'a, 'b>(re: &Regex, stopped: &Names<'a>, fresh: &Names<'b>)
    requires
        stopped.wf(),
        stopped@.entries == re.entries(),
        fresh.wf(),
        fresh@.entries == re.entries(),
        fresh@.cursor == 0,
    ensures
        fresh@.entries == stopped@.entries,
        pairs_from(fresh@.entries, fresh@.cursor) == pairs_from(re.entries(), 0),
{
}

} // verus!

//! The name table of a compiled pattern, as plain values.
//!
//! The engine keeps a bucket array; each bucket is a chain of records, one per
//! distinct group name. A record holds the name's bytes, the number of groups
//! the name labels, and the group indices: inline when there is one, in an
//! array when there are several.

use vstd::prelude::*;
use vstd::string::StringSliceAdditionalSpecFns;
use vstd::utf8::*;

verus! {

broadcast use vstd::std_specs::vec::group_vec_axioms;

/// Why a record, or a table as a whole, could not be read.
#[derive(Debug, Clone, Copy, PartialEq, Eq, Structural)]
pub enum NameError {
    /// The record claims that its name labels no group at all.
    MissingGroups,
    /// The record claims several groups but its index array holds another number.
    GroupCountMismatch,
    /// The name's bytes are not well-formed UTF-8.
    InvalidName,
    /// The engine's count of names disagrees with the records in the table.
    NameCountMismatch,
}

/// One record of the table: a group name and the groups it labels.
#[derive(Debug)]
pub struct NameEntry {
    /// The bytes of the name, exactly as long as the name.
    pub name: Vec<u8>,
    /// How many capture groups the name labels.
    pub back_num: i32,
    /// The group index when `back_num` is 1.
    pub back_ref1: i32,
    /// The group indices when `back_num` is more than 1.
    pub back_refs: Vec<i32>,
}

/// The bucket array: each bucket is a chain of records, head first.
#[derive(Debug)]
pub struct NameTable {
    pub bins: Vec<Vec<NameEntry>>,
}

/// What a record holds, as mathematical values.
pub struct EntryView {
    pub name: Seq<u8>,
    pub back_num: i32,
    pub back_ref1: i32,
    pub back_refs: Seq<i32>,
}

impl View for NameEntry {
    type V = EntryView;

    open spec fn view(&self) -> EntryView {
        EntryView {
            name: self.name@,
            back_num: self.back_num,
            back_ref1: self.back_ref1,
            back_refs: self.back_refs@,
        }
    }
}

/// The records of one bucket, head first.
pub open spec fn chain_view(chain: Vec<NameEntry>) -> Seq<EntryView> {
    chain@.map_values(|e: NameEntry| e@)
}

impl View for NameTable {
    type V = Seq<Seq<EntryView>>;

    open spec fn view(&self) -> Seq<Seq<EntryView>> {
        self.bins@.map_values(|c: Vec<NameEntry>| chain_view(c))
    }
}

/// Every record of the table in walking order: buckets in index order, each
/// chain from head to tail.
pub open spec fn chain_order(bins: Seq<Seq<EntryView>>) -> Seq<EntryView>
    decreases bins.len(),
{
    if bins.len() == 0 {
        seq![]
    } else {
        chain_order(bins.drop_last()) + bins.last()
    }
}

/// Walking the first `i` buckets reads a prefix of what walking the first `j` reads.
pub proof fn lemma_chain_order_prefix(bins: Seq<Seq<EntryView>>, i: int, j: int)
    requires
        0 <= i <= j <= bins.len(),
    ensures
        chain_order(bins.take(i)).len() <= chain_order(bins.take(j)).len(),
        forall|k: int|
            0 <= k < chain_order(bins.take(i)).len() ==> chain_order(bins.take(j))[k]
                == chain_order(bins.take(i))[k],
    decreases j - i,
{
    if i < j {
        lemma_chain_order_prefix(bins, i, j - 1);
        lemma_chain_order_step(bins, j - 1);
    }
}

/// Walking one more bucket appends that bucket's chain.
pub proof fn lemma_chain_order_step(bins: Seq<Seq<EntryView>>, i: int)
    requires
        0 <= i < bins.len(),
    ensures
        chain_order(bins.take(i + 1)) == chain_order(bins.take(i)) + bins[i],
{
    assert(bins.take(i + 1).drop_last() =~= bins.take(i));
}

/// The group indices that a record stands for.
pub open spec fn entry_groups(e: EntryView) -> Seq<i32> {
    if e.back_num > 1 {
        e.back_refs
    } else {
        seq![e.back_ref1]
    }
}

/// The fault, if any, that keeps a record from being decoded.
pub open spec fn entry_fault(e: EntryView) -> Option<NameError> {
    if e.back_num < 1 {
        Some(NameError::MissingGroups)
    } else if e.back_num > 1 && e.back_refs.len() != e.back_num {
        Some(NameError::GroupCountMismatch)
    } else if !valid_utf8(e.name) {
        Some(NameError::InvalidName)
    } else {
        None
    }
}

/// A record decoded: its name as text and the groups it labels.
pub open spec fn decode(e: EntryView) -> Result<(Seq<char>, Seq<i32>), NameError> {
    match entry_fault(e) {
        Some(err) => Err(err),
        None => Ok((decode_utf8(e.name), entry_groups(e))),
    }
}

/// A decoded pair as mathematical values.
pub open spec fn pair_view(p: (&str, &[i32])) -> (Seq<char>, Seq<i32>) {
    (p.0@, p.1@)
}

pub open spec fn result_view(r: Result<(&str, &[i32]), NameError>) -> Result<
    (Seq<char>, Seq<i32>),
    NameError,
> {
    match r {
        Ok(p) => Ok(pair_view(p)),
        Err(err) => Err(err),
    }
}

/// Relies on std::str::from_utf8: it succeeds exactly on well-formed UTF-8,
/// and the text it returns is made of those same bytes.
#[verifier::external_body]
fn utf8_text<'a>(b: &'a [u8]) -> (r: Option<&'a str>)
    ensures
        r is Some <==> valid_utf8(b@),
        r is Some ==> r->0.spec_bytes() == b@,
{
    std::str::from_utf8(b).ok()
}

/// Relies on std::slice::from_ref: a slice of length one over the value.
#[verifier::external_body]
fn one_slice<'a>(x: &'a i32) -> (r: &'a [i32])
    ensures
        r@ == seq![*x],
{
    std::slice::from_ref(x)
}

impl NameEntry {
    /// Lays out a record as the engine does, from a name, the number of
    /// groups it labels and those groups: one group inline, several in the
    /// array.
    pub fn from_groups(name: Vec<u8>, back_num: i32, groups: Vec<i32>) -> (e: NameEntry)
        ensures
            e@.name == name@,
            e@.back_num == back_num,
            back_num > 1 ==> e@.back_refs == groups@,
            groups@.len() == back_num >= 1 ==> entry_groups(e@) == groups@,
    {
        let back_ref1: i32 = if back_num == 1 && groups.len() == 1 {
            groups[0]
        } else {
            0
        };
        let back_refs = if back_num > 1 {
            groups
        } else {
            Vec::new()
        };
        let e = NameEntry { name, back_num, back_ref1, back_refs };
        proof {
            if groups@.len() == back_num && back_num == 1 {
                assert(entry_groups(e@) =~= groups@);
            }
        }
        e
    }
}

/// Decodes one record without copying: the name and the indices borrow from it.
pub fn decode_entry<'a>(e: &'a NameEntry) -> (r: Result<(&'a str, &'a [i32]), NameError>)
    ensures
        result_view(r) == decode(e@),
{
    if e.back_num < 1 {
        return Err(NameError::MissingGroups);
    }
    if e.back_num > 1 && e.back_refs.len() != e.back_num as usize {
        return Err(NameError::GroupCountMismatch);
    }
    let name = match utf8_text(e.name.as_slice()) {
        Some(s) => s,
        None => {
            return Err(NameError::InvalidName);
        },
    };
    proof {
        encode_utf8_decode_utf8(name@);
    }
    let groups = if e.back_num > 1 {
        e.back_refs.as_slice()
    } else {
        one_slice(&e.back_ref1)
    };
    Ok((name, groups))
}

} // verus!

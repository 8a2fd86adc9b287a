//! The result store: scores kept under the identifiers handed out for them.
use vstd::prelude::*;
use vstd::hash_map::StringHashMap;
use crate::receipt::{points, score, Receipt};

verus! {

/// What the store holds for `id`, or `None` when it holds nothing.
pub open spec fn lookup(m: Map<Seq<char>, u64>, id: Seq<char>) -> Option<u64> {
    if m.contains_key(id) {
        Some(m[id])
    } else {
        None
    }
}

/// Scores by identifier. Entries are added, and replaced only by a later
/// `put` of the same identifier; none is ever removed.
pub struct ResultStore {
    map: StringHashMap<u64>,
}

impl View for ResultStore {
    type V = Map<Seq<char>, u64>;

    closed spec fn view(&self) -> Map<Seq<char>, u64> {
        self.map@
    }
}

impl ResultStore {
    pub fn new() -> (r: ResultStore)
        ensures
            r@ == Map::<Seq<char>, u64>::empty(),
    {
        ResultStore { map: StringHashMap::new() }
    }

    /// Stores `points` under `id`; a value already there is replaced.
    pub fn put(&mut self, id: String, points: u64)
        ensures
            final(self)@ == old(self)@.insert(id@, points),
    {
        self.map.insert(id, points);
    }

    /// The score stored under `id`, or `None` for an identifier never stored.
    pub fn get(&self, id: &str) -> (r: Option<u64>)
        ensures
            r == lookup(self@, id@),
    {
        match self.map.get(id) {
            Some(p) => Some(*p),
            None => None,
        }
    }
}

/// Relies on `uuid::Uuid::new_v4` and its `Display` impl: a random
/// version-4 identifier written in hyphenated form, 36 characters long.
#[verifier::external_body]
fn new_token() -> (r: String)
    ensures
        r@.len() == 36,
{
    uuid::Uuid::new_v4().to_string()
}

/// Scores `receipt` and stores the score under a fresh identifier, which it
/// returns; `None`, with the store untouched, where the score does not fit
/// in `u64`.
pub fn process_receipt(store: &mut ResultStore, receipt: &Receipt) -> (r: Option<String>)
    ensures
        match r {
            Some(id) => {
                &&& points(*receipt) <= u64::MAX
                &&& id@.len() == 36
                &&& final(store)@ == old(store)@.insert(id@, points(*receipt) as u64)
            },
            None => points(*receipt) > u64::MAX && final(store)@ == old(store)@,
        },
{
    match score(receipt) {
        None => None,
        Some(p) => {
            let id = new_token();
            let key = id.clone();
            store.put(key, p);
            Some(id)
        },
    }
}

} // verus!

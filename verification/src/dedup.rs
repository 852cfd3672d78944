//! The set of identifiers already relayed, and its durable form.
//!
//! The set is kept in memory as a hash set of identifiers. Its durable form is
//! a JSON array of numbers, read and written by `serde_json`. Reading and
//! writing the file that holds the text is the driver's part; turning text into
//! a set and a set into text is done here.

use std::collections::HashSet;
use vstd::prelude::*;

verus! {

broadcast use vstd::std_specs::hash::group_hash_axioms;

/// The durable form exists but does not denote a set of identifiers.
#[derive(Clone, Copy, Debug, PartialEq, Eq, Structural)]
pub struct CorruptState;

/// Why the set could not be made durable.
#[derive(Clone, Copy, Debug, PartialEq, Eq, Structural)]
pub enum StorageError {
    /// The set could not be rendered as text.
    Serialize,
    /// The text could not be written to durable storage.
    Write,
}

#[verifier::external_type_specification]
#[verifier::external_body]
pub struct ExJsonError(serde_json::Error);

/// The set of identifiers that `serde_json::from_str` reads from `text` when
/// asked for a `HashSet<u64>`, or `None` where it reports an error.
pub uninterp spec fn json_id_set(text: Seq<char>) -> Option<Set<u64>>;

/// Calls `serde_json::from_str` for a `HashSet<u64>`.
///
/// Not proved: that the outcome is a function of the text alone, named
/// [`json_id_set`]. The members of the set read are those of the array in the
/// text; nothing is claimed about the order in which the set holds them.
#[verifier::external_body]
fn json_read(text: &str) -> (parsed: Result<HashSet<u64>, serde_json::Error>)
    ensures
        parsed matches Ok(ids) ==> json_id_set(text@) == Some(ids@),
        parsed is Err ==> json_id_set(text@) is None,
{
    serde_json::from_str::<HashSet<u64>>(text)
}

/// Calls `serde_json::to_string` on a `HashSet<u64>`.
///
/// The text is a JSON array of the members as decimal numbers, in the order in
/// which the set is walked, which differs from one process to the next. Not
/// proved: that the call succeeds, since it writes numbers into memory and
/// nothing else; and that every text so written is read back by
/// `serde_json::from_str` as a set with exactly the same members.
#[verifier::external_body]
fn json_write(ids: &HashSet<u64>) -> (written: Result<String, serde_json::Error>)
    ensures
        written is Ok,
        written matches Ok(text) ==> json_id_set(text@) == Some(ids@),
{
    serde_json::to_string(ids)
}

/// `text` is a durable form of the set `ids`.
pub open spec fn is_durable_form(text: Seq<char>, ids: Set<u64>) -> bool {
    json_id_set(text) == Some(ids)
}

/// What loading makes of the stored text: no text is the empty set, a text
/// that denotes a set is that set, any other text is corrupt state.
pub open spec fn loaded(stored: Option<Seq<char>>) -> Result<Set<u64>, CorruptState> {
    match stored {
        None => Ok(Set::empty()),
        Some(text) => match json_id_set(text) {
            Some(ids) => Ok(ids),
            None => Err(CorruptState),
        },
    }
}

/// The characters of the stored text, if there is one.
pub open spec fn stored_text(stored: Option<&str>) -> Option<Seq<char>> {
    match stored {
        None => None,
        Some(text) => Some(text@),
    }
}

/// The identifiers of all items relayed so far. Identifiers are only ever
/// added.
pub struct DedupSet {
    ids: HashSet<u64>,
}

impl View for DedupSet {
    type V = Set<u64>;

    closed spec fn view(&self) -> Set<u64> {
        self.ids@
    }
}

impl DedupSet {
    /// The set before anything was relayed.
    pub fn new() -> (set: DedupSet)
        ensures
            set@ == Set::<u64>::empty(),
    {
        DedupSet { ids: HashSet::new() }
    }

    /// Whether the item `id` was relayed before.
    pub fn contains(&self, id: u64) -> (found: bool)
        ensures
            found == self@.contains(id),
    {
        self.ids.contains(&id)
    }

    /// Records the item `id` as relayed. Returns whether it was new.
    pub fn insert(&mut self, id: u64) -> (fresh: bool)
        ensures
            final(self)@ == old(self)@.insert(id),
            fresh == !old(self)@.contains(id),
    {
        self.ids.insert(id)
    }

    /// The number of identifiers recorded.
    pub fn len(&self) -> (count: usize)
        ensures
            count == self@.len(),
    {
        self.ids.len()
    }

    /// Whether nothing was relayed yet.
    pub fn is_empty(&self) -> (empty: bool)
        ensures
            empty == self@.is_empty(),
    {
        self.ids.is_empty()
    }

    /// Makes the set from what the JSON reader returned for the stored text.
    pub fn from_parsed(parsed: Result<HashSet<u64>, serde_json::Error>) -> (res: Result<
        DedupSet,
        CorruptState,
    >)
        ensures
            parsed matches Ok(ids) ==> res matches Ok(set) && set@ == ids@,
            parsed is Err ==> res == Err::<DedupSet, CorruptState>(CorruptState),
    {
        match parsed {
            Ok(ids) => Ok(DedupSet { ids }),
            Err(_) => Err(CorruptState),
        }
    }

    /// Reads the set from its durable form.
    pub fn parse(text: &str) -> (res: Result<DedupSet, CorruptState>)
        ensures
            res matches Ok(set) ==> loaded(Some(text@)) == Ok::<Set<u64>, CorruptState>(set@),
            res matches Err(e) ==> loaded(Some(text@)) == Err::<Set<u64>, CorruptState>(e),
    {
        DedupSet::from_parsed(json_read(text))
    }

    /// Loads the set at startup from the stored text, if there is one. Absent
    /// storage is the empty set and no error.
    pub fn load(stored: Option<&str>) -> (res: Result<DedupSet, CorruptState>)
        ensures
            res matches Ok(set) ==> loaded(stored_text(stored)) == Ok::<Set<u64>, CorruptState>(
                set@,
            ),
            res matches Err(e) ==> loaded(stored_text(stored)) == Err::<Set<u64>, CorruptState>(e),
    {
        match stored {
            None => Ok(DedupSet::new()),
            Some(text) => DedupSet::parse(text),
        }
    }

    /// Makes the text to store from what the JSON writer returned for the set.
    pub fn from_written(written: Result<String, serde_json::Error>) -> (res: Result<
        String,
        StorageError,
    >)
        ensures
            written matches Ok(text) ==> res == Ok::<String, StorageError>(text),
            written is Err ==> res == Err::<String, StorageError>(StorageError::Serialize),
    {
        match written {
            Ok(text) => Ok(text),
            Err(_) => Err(StorageError::Serialize),
        }
    }

    /// Renders the whole set in its durable form. The text replaces whatever
    /// was stored before. Every set can be rendered.
    pub fn to_json(&self) -> (res: Result<String, StorageError>)
        ensures
            res is Ok,
            res matches Ok(text) ==> is_durable_form(text@, self@),
    {
        DedupSet::from_written(json_write(&self.ids))
    }
}

/// A set that was rendered and stored is loaded again as the same set.
pub proof fn lemma_stored_set_is_loaded_again(ids: Set<u64>, text: Seq<char>)
    requires
        is_durable_form(text, ids),
    ensures
        loaded(Some(text)) == Ok::<Set<u64>, CorruptState>(ids),
{
}

} // verus!

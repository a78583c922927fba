//! The rules of the saved-request store: saving replaces the entry with the
//! same id and puts it last; deleting removes every entry with the id.  The
//! file that holds the store is read and written by the application.
use vstd::prelude::*;

use std::path::PathBuf;

use crate::model::saved_request::{saved_view, SavedRequest, SavedView};
use crate::text::chars_of;

verus! {

broadcast use vstd::string::group_string_axioms;

/// `std::path::PathBuf`, carried through unchanged.
#[verifier::external_type_specification]
#[verifier::external_body]
pub struct ExPathBuf(PathBuf);

/// The store kept as pretty-printed JSON in one file.
pub struct JsonFileRequestRepository {
    path: PathBuf,
}

impl JsonFileRequestRepository {
    pub fn new(path: PathBuf) -> (r: JsonFileRequestRepository)
        ensures
            r.spec_path() == path,
    {
        JsonFileRequestRepository { path }
    }

    pub closed spec fn spec_path(&self) -> PathBuf {
        self.path
    }

    /// The file that holds the store.
    pub fn path(&self) -> (r: &PathBuf)
        ensures
            *r == self.spec_path(),
    {
        &self.path
    }
}

/// The entries of `entries` whose id is not `id`, in order.
pub open spec fn without_id(entries: Seq<SavedView>, id: Seq<char>) -> Seq<SavedView>
    decreases entries.len(),
{
    if entries.len() == 0 {
        Seq::empty()
    } else if entries.last().id == id {
        without_id(entries.drop_last(), id)
    } else {
        without_id(entries.drop_last(), id).push(entries.last())
    }
}

/// The store after saving `entry`: any entry with its id goes, and `entry`
/// comes last.
pub open spec fn saved_store(entries: Seq<SavedView>, entry: SavedView) -> Seq<SavedView> {
    without_id(entries, entry.id).push(entry)
}

/// The store after deleting `id`.
pub open spec fn deleted_store(entries: Seq<SavedView>, id: Seq<char>) -> Seq<SavedView> {
    without_id(entries, id)
}

/// The number of entries with the id `id`.
pub open spec fn count_id(entries: Seq<SavedView>, id: Seq<char>) -> nat
    decreases entries.len(),
{
    if entries.len() == 0 {
        0
    } else {
        count_id(entries.drop_last(), id) + if entries.last().id == id {
            1nat
        } else {
            0nat
        }
    }
}

fn keep_other_ids(entries: Vec<SavedRequest>, id: &str) -> (r: Vec<SavedRequest>)
    ensures
        saved_view(r@) == without_id(saved_view(entries@), id@),
{
    let target = chars_of(id);
    let mut out: Vec<SavedRequest> = Vec::new();
    let mut rest = entries;
    let ghost all = saved_view(rest@);
    let mut i: usize = 0;
    let n = rest.len();
    while i < n
        invariant
            n == all.len(),
            i <= n,
            rest@.len() == n - i,
            target@ == id@,
            saved_view(rest@) == all.skip(i as int),
            saved_view(out@) == without_id(all.take(i as int), id@),
        decreases n - i,
    {
        assert(saved_view(rest@)[0] == all[i as int]);
        let ghost old_rest = rest@;
        let e = rest.remove(0);
        assert(rest@ == old_rest.remove(0));
        assert(e == old_rest[0]);
        assert(e@ == all[i as int]);
        assert forall|j: int| 0 <= j < rest@.len() implies #[trigger] saved_view(rest@)[j] == all.skip(
            i + 1,
        )[j] by {
            assert(rest@[j] == old_rest[j + 1]);
            assert(saved_view(old_rest)[j + 1] == all.skip(i as int)[j + 1]);
        }
        assert(saved_view(rest@) =~= all.skip(i + 1));
        let e_id = chars_of(e.id.as_str());
        let same = crate::text::chars_eq(&e_id, &target);
        let ghost before = saved_view(out@);
        assert(same == (all[i as int].id == id@));
        if !same {
            out.push(e);
            assert(saved_view(out@) =~= before.push(all[i as int]));
        }
        i += 1;
        assert(all.take(i as int).drop_last() == all.take(i - 1));
        assert(all.take(i as int).last() == all[i - 1]);
    }
    assert(all.take(n as int) == all);
    out
}

/// Saves `entry`: drops any entry with the same id and appends `entry`.
pub fn upsert_entry(entries: Vec<SavedRequest>, entry: SavedRequest) -> (r: Vec<SavedRequest>)
    ensures
        saved_view(r@) == saved_store(saved_view(entries@), entry@),
{
    let mut kept = keep_other_ids(entries, entry.id.as_str());
    let ghost before = saved_view(kept@);
    kept.push(entry);
    assert(saved_view(kept@) =~= before.push(entry@));
    kept
}

/// Deletes every entry with the id `id`.
pub fn remove_entry(entries: Vec<SavedRequest>, id: &str) -> (r: Vec<SavedRequest>)
    ensures
        saved_view(r@) == deleted_store(saved_view(entries@), id@),
{
    keep_other_ids(entries, id)
}

// ---------------------------------------------------------------------------
// Laws of the store
// ---------------------------------------------------------------------------

proof fn lemma_without_id_count(entries: Seq<SavedView>, id: Seq<char>, other: Seq<char>)
    ensures
        count_id(without_id(entries, id), id) == 0,
        other != id ==> count_id(without_id(entries, id), other) == count_id(entries, other),
    decreases entries.len(),
{
    if entries.len() > 0 {
        lemma_without_id_count(entries.drop_last(), id, other);
        let w = without_id(entries.drop_last(), id);
        if entries.last().id != id {
            assert(without_id(entries, id).drop_last() == w);
        }
    }
}

proof fn lemma_without_id_absent(entries: Seq<SavedView>, id: Seq<char>)
    requires
        count_id(entries, id) == 0,
    ensures
        without_id(entries, id) == entries,
    decreases entries.len(),
{
    if entries.len() > 0 {
        lemma_without_id_absent(entries.drop_last(), id);
        assert(entries.drop_last().push(entries.last()) == entries);
    }
}

proof fn lemma_without_id_twice(entries: Seq<SavedView>, id: Seq<char>)
    ensures
        without_id(without_id(entries, id), id) == without_id(entries, id),
{
    lemma_without_id_count(entries, id, id);
    lemma_without_id_absent(without_id(entries, id), id);
}

/// After a save, the store holds exactly one entry with the saved id, and it
/// is the saved entry, last; every other id keeps its count.
pub proof fn law_save_then_load(entries: Seq<SavedView>, entry: SavedView, other: Seq<char>)
    ensures
        count_id(saved_store(entries, entry), entry.id) == 1,
        saved_store(entries, entry).last() == entry,
        other != entry.id ==> count_id(saved_store(entries, entry), other) == count_id(entries, other),
{
    lemma_without_id_count(entries, entry.id, other);
    let s = saved_store(entries, entry);
    assert(s.drop_last() == without_id(entries, entry.id));
}

/// Saving the same entry twice leaves the store as one save does.
pub proof fn law_save_idempotent(entries: Seq<SavedView>, entry: SavedView)
    ensures
        saved_store(saved_store(entries, entry), entry) == saved_store(entries, entry),
{
    let once = saved_store(entries, entry);
    assert(once.drop_last() == without_id(entries, entry.id));
    assert(without_id(once, entry.id) == without_id(without_id(entries, entry.id), entry.id));
    lemma_without_id_twice(entries, entry.id);
}

/// After a delete, no entry has the deleted id, and every other id keeps its
/// count.
pub proof fn law_delete_then_load(entries: Seq<SavedView>, id: Seq<char>, other: Seq<char>)
    ensures
        count_id(deleted_store(entries, id), id) == 0,
        other != id ==> count_id(deleted_store(entries, id), other) == count_id(entries, other),
{
    lemma_without_id_count(entries, id, other);
}

/// Deleting an entry that was just saved under a new id gives back the store
/// as it was.
pub proof fn law_delete_undoes_new_save(entries: Seq<SavedView>, entry: SavedView)
    requires
        count_id(entries, entry.id) == 0,
    ensures
        deleted_store(saved_store(entries, entry), entry.id) == entries,
{
    let once = saved_store(entries, entry);
    assert(once.drop_last() == without_id(entries, entry.id));
    lemma_without_id_absent(entries, entry.id);
}

} // verus!

//! Work discovery: what is left to delete, and what to write to the log.

use crate::identifiers::{lemma_pending_ids, lemma_views_push, pending_ids, views};
use crate::inventory::{DeletedInventory, Inventory};
use crate::progress_log::{entry_of, log_entry};
use vstd::hash_set::StringHashSet;
use vstd::prelude::*;

verus! {

/// The work of one run: the identifiers that still have to be deleted, the
/// place of the completion log, and the sizes of the two sets that the work
/// was computed from.
#[derive(Debug)]
pub struct FileService {
    /// The identifiers to delete, each once.
    pub delete_ids: Vec<String>,
    /// The place of the completion log.
    pub deleted_log_path: String,
    /// The number of distinct identifiers in the inventory.
    pub inventory_count: usize,
    /// The number of identifiers that the log held at the start.
    pub deleted_count: usize,
}

impl FileService {
    /// Computes the pending work: the inventory without what the log holds.
    pub fn new(
        inventory: &Inventory,
        deleted_inventory: &DeletedInventory,
        deleted_log_path: String,
    ) -> (service: FileService)
        ensures
            views(service.delete_ids@) == pending_ids(inventory.ids(), deleted_inventory.ids@),
            views(service.delete_ids@).no_duplicates(),
            views(service.delete_ids@).to_set() == inventory.id_set().difference(
                deleted_inventory.ids@,
            ),
            service.deleted_log_path@ == deleted_log_path@,
            service.inventory_count == inventory.id_set().len(),
            service.deleted_count == deleted_inventory.ids@.len(),
    {
        let ghost completed = deleted_inventory.ids@;
        let mut delete_ids: Vec<String> = Vec::new();
        let mut seen = StringHashSet::new();
        let mut i: usize = 0;
        while i < inventory.archive_list.len()
            invariant
                i <= inventory.archive_list.len(),
                completed == deleted_inventory.ids@,
                seen@ == inventory.ids().take(i as int).to_set(),
                views(delete_ids@) == pending_ids(inventory.ids().take(i as int), completed),
            decreases inventory.archive_list.len() - i,
        {
            let id = inventory.archive_list[i].archive_id();
            proof {
                let done = inventory.ids().take(i as int);
                assert(inventory.ids().take(i + 1) == done.push(id@));
                assert(inventory.ids().take(i + 1).drop_last() == done);
                done.lemma_push_to_set_commute(id@);
                lemma_pending_ids(done, completed);
                let earlier = pending_ids(done, completed);
                assert(earlier.contains(id@) == earlier.to_set().contains(id@));
                assert(done.contains(id@) == done.to_set().contains(id@));
            }
            let first = seen.insert(id.to_owned());
            if first && !deleted_inventory.ids.contains(id) {
                let copy = id.to_owned();
                proof {
                    lemma_views_push(delete_ids@, copy);
                }
                delete_ids.push(copy);
            }
            i += 1;
        }
        proof {
            assert(inventory.ids().take(i as int) == inventory.ids());
            lemma_pending_ids(inventory.ids(), completed);
        }
        FileService {
            delete_ids,
            deleted_log_path,
            inventory_count: seen.len(),
            deleted_count: deleted_inventory.ids.len(),
        }
    }

    /// The text to append to the completion log once the deletion of
    /// `id_to_log` is confirmed: the identifier and a line feed.
    pub fn log_deleted_id(&self, id_to_log: &str) -> (entry: String)
        ensures
            entry@ == entry_of(id_to_log@),
    {
        log_entry(id_to_log)
    }

    /// The number of identifiers to delete.
    pub fn pending_count(&self) -> (n: usize)
        ensures
            n == self.delete_ids@.len(),
    {
        self.delete_ids.len()
    }
}

} // verus!

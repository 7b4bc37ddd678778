//! The declared inventory of a vault and the set of archives already deleted.

use crate::identifiers::views;
use crate::progress_log::{lines_of, split_lines};
use vstd::hash_set::StringHashSet;
use vstd::prelude::*;

verus! {

/// One record of the inventory: an archive, known by its identifier.
#[derive(Clone, Debug, PartialEq, Eq, Hash)]
pub struct ArchiveItem {
    archive_id: String,
}

impl View for ArchiveItem {
    type V = Seq<char>;

    closed spec fn view(&self) -> Seq<char> {
        self.archive_id@
    }
}

impl ArchiveItem {
    /// The record of the archive with the given identifier.
    pub fn new(archive_id: String) -> (item: ArchiveItem)
        ensures
            item@ == archive_id@,
    {
        ArchiveItem { archive_id }
    }

    /// The identifier of the archive.
    pub fn archive_id(&self) -> (id: &str)
        ensures
            id@ == self@,
    {
        self.archive_id.as_str()
    }
}

/// The archives that a vault is declared to hold, in the order of the
/// inventory document. An identifier may occur more than once.
#[derive(Debug)]
pub struct Inventory {
    pub archive_list: Vec<ArchiveItem>,
}

impl Inventory {
    /// The identifiers of the records, in order.
    pub open spec fn ids(&self) -> Seq<Seq<char>> {
        self.archive_list@.map_values(|item: ArchiveItem| item@)
    }

    /// The inventory as a set: duplicates collapse.
    pub open spec fn id_set(&self) -> Set<Seq<char>> {
        self.ids().to_set()
    }

    /// The inventory of the given records.
    pub fn new(archive_list: Vec<ArchiveItem>) -> (inventory: Inventory)
        ensures
            inventory.archive_list == archive_list,
    {
        Inventory { archive_list }
    }

    /// The set of identifiers that the inventory names.
    pub fn get_id_set(&self) -> (set: StringHashSet)
        ensures
            set@ == self.id_set(),
    {
        let mut set = StringHashSet::new();
        let mut i: usize = 0;
        while i < self.archive_list.len()
            invariant
                i <= self.archive_list.len(),
                set@ == self.ids().take(i as int).to_set(),
            decreases self.archive_list.len() - i,
        {
            proof {
                let done = self.ids().take(i as int);
                assert(self.ids().take(i + 1) == done.push(self.ids()[i as int]));
                done.lemma_push_to_set_commute(self.ids()[i as int]);
            }
            set.insert(self.archive_list[i].archive_id.clone());
            i += 1;
        }
        assert(self.ids().take(i as int) == self.ids());
        set
    }

    /// The set of identifiers that the inventory names.
    pub fn create_id_hashset(&self) -> (set: StringHashSet)
        ensures
            set@ == self.id_set(),
    {
        self.get_id_set()
    }

    /// Drops the records whose identifier is in `deleted_ids`. The others
    /// stay, in their order.
    pub fn filter_deleted(&mut self, deleted_ids: &StringHashSet)
        ensures
            final(self).ids() == old(self).ids().filter(
                |id: Seq<char>| !deleted_ids@.contains(id),
            ),
    {
        let ghost keep = |id: Seq<char>| !deleted_ids@.contains(id);
        let mut kept: Vec<ArchiveItem> = Vec::new();
        let mut i: usize = 0;
        while i < self.archive_list.len()
            invariant
                i <= self.archive_list.len(),
                *self == *old(self),
                keep == |id: Seq<char>| !deleted_ids@.contains(id),
                kept@.map_values(|item: ArchiveItem| item@) == self.ids().take(i as int).filter(
                    keep,
                ),
            decreases self.archive_list.len() - i,
        {
            let item = &self.archive_list[i];
            proof {
                let done = self.ids().take(i as int);
                assert(self.ids().take(i + 1) == done.push(item@));
                done.lemma_filter_push(item@, keep);
            }
            if !deleted_ids.contains(item.archive_id.as_str()) {
                let copy = ArchiveItem { archive_id: item.archive_id.clone() };
                proof {
                    assert(kept@.push(copy).map_values(|item: ArchiveItem| item@)
                        == kept@.map_values(|item: ArchiveItem| item@).push(copy@));
                }
                kept.push(copy);
            }
            i += 1;
        }
        assert(self.ids().take(i as int) == self.ids());
        self.archive_list = kept;
    }
}

/// The archives whose deletion the completion log confirms.
pub struct DeletedInventory {
    pub ids: StringHashSet,
}

/// What an attempt to read the completion log gave.
#[derive(Debug)]
pub enum LogRead {
    /// The log is there, with this text.
    Found(String),
    /// There is no log yet.
    Missing,
    /// The log could not be read, for this cause.
    Failed(String),
}

/// A source of the run could not be loaded. The run does not start.
#[derive(Debug)]
pub struct SourceLoadError {
    pub cause: String,
}

/// How a run starts from its completion log.
pub struct LogOpening {
    /// What the log confirms as deleted.
    pub deleted: DeletedInventory,
    /// Whether the log has to be created, empty, before the run goes on.
    pub create: bool,
}

impl DeletedInventory {
    /// Reads the text of a completion log: each line is one identifier. The
    /// order of the lines does not matter, and a line may repeat.
    pub fn new(contents: &str) -> (deleted: DeletedInventory)
        ensures
            deleted.ids@ == lines_of(contents@).to_set(),
    {
        let lines = split_lines(contents);
        let mut ids = StringHashSet::new();
        let mut i: usize = 0;
        while i < lines.len()
            invariant
                i <= lines.len(),
                ids@ == views(lines@).take(i as int).to_set(),
            decreases lines.len() - i,
        {
            proof {
                let done = views(lines@).take(i as int);
                assert(views(lines@).take(i + 1) == done.push(lines@[i as int]@));
                done.lemma_push_to_set_commute(lines@[i as int]@);
            }
            ids.insert(lines[i].clone());
            i += 1;
        }
        assert(views(lines@).take(i as int) == views(lines@));
        DeletedInventory { ids }
    }

    /// Decides how the run starts from what reading the log gave. A log that
    /// is not there yet is no error: nothing is deleted so far, and the log
    /// is to be created. Any other failure to read stops the run.
    pub fn open(read: LogRead) -> (result: Result<LogOpening, SourceLoadError>)
        ensures
            match read {
                LogRead::Found(text) => result matches Ok(opening) && !opening.create
                    && opening.deleted.ids@ == lines_of(text@).to_set(),
                LogRead::Missing => result matches Ok(opening) && opening.create
                    && opening.deleted.ids@ == Set::<Seq<char>>::empty(),
                LogRead::Failed(cause) => result matches Err(e) && e.cause@ == cause@,
            },
    {
        match read {
            LogRead::Found(text) => Ok(
                LogOpening { deleted: DeletedInventory::new(text.as_str()), create: false },
            ),
            LogRead::Missing => Ok(
                LogOpening {
                    deleted: DeletedInventory { ids: StringHashSet::new() },
                    create: true,
                },
            ),
            LogRead::Failed(cause) => Err(SourceLoadError { cause }),
        }
    }
}

} // verus!

use vstd::prelude::*;

verus! {

/// Unique identifier for a file or data item
pub type ItemId = u64;

/// One slot of a folder: a stored file, or a nested folder referenced by
/// its index in the surrounding collection of folders.
#[derive(Copy, Clone, Debug, PartialEq, Eq, Structural)]
pub enum FolderEntry {
    File(ItemId),
    Folder(usize),
}

/// A fixed-capacity folder: an arena of at most 16 entry slots kept dense
/// (occupied slots first, in insertion order), with removal compacting the
/// tail by shifting it one slot to the left.
pub struct Folder {
    pub name: &'static str,
    pub entries: [Option<FolderEntry>; 16],
    pub count: usize,
}

impl Folder {
    /// Well-formed: exactly the first `count` slots are occupied.
    pub open spec fn wf(&self) -> bool {
        &&& self.count <= 16
        &&& forall|i: int| 0 <= i < self.count ==> self.entries@[i] is Some
        &&& forall|i: int| self.count <= i < 16 ==> self.entries@[i] is None
    }
}

impl View for Folder {
    type V = Seq<FolderEntry>;

    /// A folder is the sequence of its occupied entries, in slot order.
    open spec fn view(&self) -> Seq<FolderEntry> {
        Seq::new(self.count as nat, |i: int| self.entries@[i]->Some_0)
    }
}

impl Folder {
    /// An empty folder with the given name.
    pub fn new(name: &'static str) -> (r: Folder)
        ensures
            r.wf(),
            r@ == Seq::<FolderEntry>::empty(),
            r.name == name,
            r.count == 0,
    {
        let f = Folder { name, entries: [None; 16], count: 0 };
        proof {
            assert(f@ =~= Seq::<FolderEntry>::empty());
        }
        f
    }

    /// Appends an entry in the first free slot; reports whether there was room.
    pub fn add_entry(&mut self, entry: FolderEntry) -> (r: bool)
        requires
            old(self).wf(),
        ensures
            final(self).wf(),
            final(self).name == old(self).name,
            (if old(self)@.len() < 16 {
                r == true && final(self)@ == old(self)@.push(entry)
            } else {
                r == false && *final(self) == *old(self)
            }),
    {
        if self.count < 16 {
            let c = self.count;
            self.entries[c] = Some(entry);
            self.count = c + 1;
            proof {
                assert(self@ =~= old(self)@.push(entry));
            }
            true
        } else {
            false
        }
    }

    /// Removes the first slot holding `entry` and shifts the entries behind
    /// it one slot to the left; reports whether such a slot existed.
    fn remove_first(&mut self, entry: FolderEntry) -> (r: bool)
        requires
            old(self).wf(),
        ensures
            final(self).wf(),
            final(self).name == old(self).name,
            (match old(self)@.index_of_first(entry) {
                Some(i) => r == true && final(self)@ == old(self)@.remove(i),
                None => r == false && *final(self) == *old(self),
            }),
    {
        let mut i: usize = 0;
        while i < self.count
            invariant
                *self == *old(self),
                self.wf(),
                i <= self.count,
                forall|j: int| 0 <= j < i ==> self@[j] != entry,
            decreases self.count - i,
        {
            let cur = self.entries[i];
            let hit = match cur {
                Some(e) => e == entry,
                None => false,
            };
            if hit {
                let ghost orig = *self;
                proof {
                    assert(orig@[i as int] == entry);
                }
                let mut j: usize = i;
                while j + 1 < self.count
                    invariant
                        self.count == orig.count,
                        self.name == orig.name,
                        self.count <= 16,
                        i <= j < self.count,
                        forall|k: int| 0 <= k < i ==> self.entries@[k] == orig.entries@[k],
                        forall|k: int| i <= k < j ==> self.entries@[k] == orig.entries@[k + 1],
                        forall|k: int| j <= k < 16 ==> self.entries@[k] == orig.entries@[k],
                    decreases self.count - j,
                {
                    let next = self.entries[j + 1];
                    self.entries[j] = next;
                    j += 1;
                }
                let c = self.count;
                self.entries[c - 1] = None;
                self.count = c - 1;
                proof {
                    assert(orig.wf());
                    assert forall|k: int| 0 <= k < self.count implies self.entries@[k] is Some by {
                        if k < i as int {
                            assert(self.entries@[k] == orig.entries@[k]);
                        } else {
                            assert(self.entries@[k] == orig.entries@[k + 1]);
                        }
                    }
                    assert forall|k: int| self.count <= k < 16 implies self.entries@[k]
                        is None by {
                        if k > self.count {
                            assert(self.entries@[k] == orig.entries@[k]);
                        }
                    }
                    assert(self@ =~= orig@.remove(i as int));
                    orig@.index_of_first_ensures(entry);
                    let idx = orig@.index_of_first(entry)->Some_0;
                    if idx < i as int {
                        assert(orig@[idx] != entry);
                    }
                    assert(orig@.index_of_first(entry) == Some(i as int));
                }
                return true;
            }
            i += 1;
        }
        proof {
            old(self)@.index_of_first_ensures(entry);
            if old(self)@.index_of_first(entry) is Some {
                let idx = old(self)@.index_of_first(entry)->Some_0;
                assert(old(self)@[idx] != entry);
            }
        }
        false
    }

    /// Removes the first occurrence of the file with identifier `id`.
    pub fn remove_file(&mut self, id: ItemId) -> (r: bool)
        requires
            old(self).wf(),
        ensures
            final(self).wf(),
            final(self).name == old(self).name,
            (match old(self)@.index_of_first(FolderEntry::File(id)) {
                Some(i) => r == true && final(self)@ == old(self)@.remove(i),
                None => r == false && *final(self) == *old(self),
            }),
    {
        self.remove_first(FolderEntry::File(id))
    }

    /// Removes the first occurrence of the nested folder with index `folder_idx`.
    pub fn remove_folder(&mut self, folder_idx: usize) -> (r: bool)
        requires
            old(self).wf(),
        ensures
            final(self).wf(),
            final(self).name == old(self).name,
            (match old(self)@.index_of_first(FolderEntry::Folder(folder_idx)) {
                Some(i) => r == true && final(self)@ == old(self)@.remove(i),
                None => r == false && *final(self) == *old(self),
            }),
    {
        self.remove_first(FolderEntry::Folder(folder_idx))
    }
}

} // verus!

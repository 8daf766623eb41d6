//! Model of the synchronized directory: a flat set of named files and their
//! byte contents. The handlers read and mutate the directory through this
//! model; the surrounding program keeps it in step with the real filesystem.

use vstd::prelude::*;

use crate::keyed::{
    key_map, keys_unique, lemma_key_map_dom, lemma_key_map_get, lemma_remove_seq_at,
    lemma_remove_seq_absent, lemma_remove_seq_map, lemma_upsert_seq_map, lemma_upsert_seq_push,
    lemma_upsert_seq_update, remove_seq, upsert_seq,
};

verus! {

/// One file of the directory: its name and its bytes.
pub struct NamedFile {
    pub name: String,
    pub content: Vec<u8>,
}

/// Mathematical model of a [`NamedFile`].
pub struct EntryV {
    pub name: Seq<char>,
    pub content: Seq<u8>,
}

impl View for NamedFile {
    type V = EntryV;

    open spec fn view(&self) -> EntryV {
        EntryV { name: self.name@, content: self.content@ }
    }
}

/// The key of a directory entry: its name.
pub open spec fn by_name() -> spec_fn(EntryV) -> Seq<char> {
    |e: EntryV| e.name
}

/// The directory: named files, one entry per name.
pub struct SyncDir {
    files: Vec<NamedFile>,
}

impl View for SyncDir {
    type V = Seq<EntryV>;

    closed spec fn view(&self) -> Seq<EntryV> {
        self.files@.map_values(|f: NamedFile| f@)
    }
}

impl SyncDir {
    /// Names are unique.
    pub open spec fn inv(&self) -> bool {
        keys_unique(self@, by_name())
    }

    /// The map the directory denotes: name to entry.
    pub open spec fn map_view(&self) -> Map<Seq<char>, EntryV> {
        key_map(self@, by_name())
    }

    /// Whether a file of this name exists.
    pub open spec fn has(&self, name: Seq<char>) -> bool {
        self.map_view().dom().contains(name)
    }

    /// The bytes of the file of this name.
    pub open spec fn content_of(&self, name: Seq<char>) -> Seq<u8> {
        self.map_view()[name].content
    }

    /// An empty directory.
    pub fn new() -> (r: SyncDir)
        ensures
            r@ == Seq::<EntryV>::empty(),
            r.inv(),
    {
        let r = SyncDir { files: Vec::new() };
        proof {
            assert(r@ =~= Seq::<EntryV>::empty());
        }
        r
    }

    fn find(&self, name: &String) -> (r: Option<usize>)
        ensures
            match r {
                Option::Some(i) => i < self@.len() && self@[i as int].name == name@,
                Option::None => forall|i: int|
                    0 <= i < self@.len() ==> (#[trigger] self@[i]).name != name@,
            },
    {
        let n = self.files.len();
        let mut i: usize = 0;
        while i < n
            invariant
                n == self.files.len(),
                i <= n,
                forall|j: int| 0 <= j < i ==> (#[trigger] self@[j]).name != name@,
            decreases n - i,
        {
            if self.files[i].name == *name {
                return Option::Some(i);
            }
            i = i + 1;
        }
        Option::None
    }

    /// Whether a file of this name exists.
    pub fn contains(&self, name: &String) -> (r: bool)
        requires
            self.inv(),
        ensures
            r == self.has(name@),
    {
        proof {
            lemma_key_map_dom(self@, by_name(), name@);
        }
        self.find(name).is_some()
    }

    /// Read the bytes of a file, or nothing when the name is absent.
    pub fn read(&self, name: &String) -> (r: Option<Vec<u8>>)
        requires
            self.inv(),
        ensures
            match r {
                Option::Some(c) => self.has(name@) && c@ == self.content_of(name@),
                Option::None => !self.has(name@),
            },
    {
        proof {
            lemma_key_map_dom(self@, by_name(), name@);
        }
        match self.find(name) {
            Option::Some(i) => {
                proof {
                    lemma_key_map_get(self@, by_name(), i as int);
                }
                let mut c: Vec<u8> = Vec::new();
                let src = &self.files[i].content;
                let n = src.len();
                let mut j: usize = 0;
                while j < n
                    invariant
                        n == src.len(),
                        j <= n,
                        c@ == src@.subrange(0, j as int),
                    decreases n - j,
                {
                    c.push(src[j]);
                    proof {
                        assert(c@ =~= src@.subrange(0, j + 1 as int));
                    }
                    j = j + 1;
                }
                proof {
                    assert(c@ =~= src@);
                }
                Option::Some(c)
            }
            Option::None => Option::None,
        }
    }

    /// Write a file: replace its bytes, or add it when absent.
    pub fn write(&mut self, name: &String, content: Vec<u8>)
        requires
            old(self).inv(),
        ensures
            final(self).inv(),
            final(self)@ == upsert_seq(
                old(self)@,
                by_name(),
                EntryV { name: name@, content: content@ },
            ),
            final(self).map_view() == old(self).map_view().insert(
                name@,
                EntryV { name: name@, content: content@ },
            ),
    {
        let ghost e = EntryV { name: name@, content: content@ };
        proof {
            lemma_upsert_seq_map(self@, by_name(), e);
        }
        let entry = NamedFile { name: name.clone(), content };
        match self.find(name) {
            Option::Some(i) => {
                self.files.set(i, entry);
                proof {
                    assert(self@ =~= old(self)@.update(i as int, e));
                    lemma_upsert_seq_update(old(self)@, by_name(), e, i as int);
                }
            }
            Option::None => {
                self.files.push(entry);
                proof {
                    assert(self@ =~= old(self)@.push(e));
                    lemma_upsert_seq_push(old(self)@, by_name(), e);
                }
            }
        }
    }

    /// Remove a file; removing an absent name is a no-op.
    pub fn remove(&mut self, name: &String)
        requires
            old(self).inv(),
        ensures
            final(self).inv(),
            final(self)@ == remove_seq(old(self)@, by_name(), name@),
            final(self).map_view() == old(self).map_view().remove(name@),
    {
        proof {
            lemma_remove_seq_map(self@, by_name(), name@);
        }
        match self.find(name) {
            Option::Some(i) => {
                self.files.remove(i);
                proof {
                    assert(self@ =~= old(self)@.remove(i as int));
                    lemma_remove_seq_at(old(self)@, by_name(), name@, i as int);
                }
            }
            Option::None => {
                proof {
                    lemma_remove_seq_absent(self@, by_name(), name@);
                }
            }
        }
    }

    /// The names of all files, in directory order.
    pub fn names(&self) -> (r: Vec<String>)
        ensures
            r@.len() == self@.len(),
            forall|i: int| 0 <= i < self@.len() ==> (#[trigger] r@[i])@ == self@[i].name,
    {
        let n = self.files.len();
        let mut r: Vec<String> = Vec::new();
        let mut i: usize = 0;
        while i < n
            invariant
                n == self.files.len(),
                i <= n,
                r@.len() == i,
                forall|j: int| 0 <= j < i ==> (#[trigger] r@[j])@ == self@[j].name,
            decreases n - i,
        {
            r.push(self.files[i].name.clone());
            i = i + 1;
        }
        r
    }
}

} // verus!

//! Data model of the file index: block chains, file details, index files,
//! and the transactional in-memory index store.

use vstd::prelude::*;
use vstd::string::StringExecFns;

use crate::keyed::{
    key_map, keys_unique, lemma_key_map_dom, lemma_key_map_get, lemma_key_map_push,
    lemma_upsert_seq_map, lemma_upsert_seq_push, lemma_upsert_seq_update, upsert_seq,
};

verus! {

/// Size of one content block: 4 MiB.
pub const BLOCK_SIZE: usize = 4 * 1024 * 1024;

/// A SHA-256 digest: exactly 32 bytes. The all-zero digest is used only as
/// an in-band marker for "deleted, no content".
pub type Sha256sum = Vec<u8>;

/// One tile of a file: `len` bytes starting at `offset`, with the digest of
/// exactly those bytes.
pub struct Block {
    pub offset: u64,
    pub len: u64,
    pub hash_sum: Sha256sum,
}

/// Mathematical model of a [`Block`].
pub struct BlockV {
    pub offset: u64,
    pub len: u64,
    pub hash_sum: Seq<u8>,
}

impl View for Block {
    type V = BlockV;

    open spec fn view(&self) -> BlockV {
        BlockV { offset: self.offset, len: self.len, hash_sum: self.hash_sum@ }
    }
}

/// The tiling of a whole file into blocks.
pub struct BlockChain {
    pub block_size: u64,
    pub blocks: Vec<Block>,
}

/// Mathematical model of a [`BlockChain`].
pub struct ChainV {
    pub block_size: u64,
    pub blocks: Seq<BlockV>,
}

impl View for BlockChain {
    type V = ChainV;

    open spec fn view(&self) -> ChainV {
        ChainV {
            block_size: self.block_size,
            blocks: self.blocks@.map_values(|b: Block| b@),
        }
    }
}

/// What kind of directory entry an index file describes.
#[derive(Clone, Copy, PartialEq, Eq, Structural, Debug)]
pub enum FileKind {
    File,
    Symlink,
}

impl FileKind {
    /// The kind's name, as it is persisted.
    pub fn name(&self) -> (r: String)
        ensures
            self is File ==> r@ == "File"@,
            self is Symlink ==> r@ == "Symlink"@,
    {
        match self {
            FileKind::File => String::from_str("File"),
            FileKind::Symlink => String::from_str("Symlink"),
        }
    }

    /// Parse a persisted kind name; anything but the two known names is
    /// refused with a message naming the stray text.
    pub fn from_name(s: &String) -> (r: Result<FileKind, String>)
        ensures
            s@ == "File"@ ==> r == Result::<FileKind, String>::Ok(FileKind::File),
            s@ != "File"@ && s@ == "Symlink"@ ==> r == Result::<FileKind, String>::Ok(
                FileKind::Symlink,
            ),
            s@ != "File"@ && s@ != "Symlink"@ ==> (r matches Result::Err(m) && m@
                == "invalid file kind '"@ + s@ + "'"@),
    {
        if *s == String::from_str("File") {
            Result::Ok(FileKind::File)
        } else if *s == String::from_str("Symlink") {
            Result::Ok(FileKind::Symlink)
        } else {
            Result::Err(
                String::from_str("invalid file kind '").concat(s.as_str()).concat("'"),
            )
        }
    }
}

/// One version record of a file: its generation, whole-file digest, tiling,
/// and whether this version is a deletion.
pub struct FileDetail {
    pub gen: u32,
    pub hash_sum: Sha256sum,
    pub block_chain: Option<BlockChain>,
    pub deleted: bool,
}

/// Mathematical model of a [`FileDetail`].
pub struct DetailV {
    pub gen: u32,
    pub hash_sum: Seq<u8>,
    pub block_chain: Option<ChainV>,
    pub deleted: bool,
}

impl View for FileDetail {
    type V = DetailV;

    open spec fn view(&self) -> DetailV {
        DetailV {
            gen: self.gen,
            hash_sum: self.hash_sum@,
            block_chain: match self.block_chain {
                Option::None => Option::None,
                Option::Some(c) => Option::Some(c@),
            },
            deleted: self.deleted,
        }
    }
}

/// The full index entry of one filename: its current version and the retired
/// versions kept for conflict detection.
pub struct IndexFile {
    pub filename: String,
    pub kind: FileKind,
    pub detail: FileDetail,
    pub previous_details: Vec<FileDetail>,
    pub update_time: u64,
    pub update_by: String,
}

/// Mathematical model of an [`IndexFile`].
pub struct FileV {
    pub filename: Seq<char>,
    pub kind: FileKind,
    pub detail: DetailV,
    pub previous_details: Seq<DetailV>,
    pub update_time: u64,
    pub update_by: Seq<char>,
}

impl View for IndexFile {
    type V = FileV;

    open spec fn view(&self) -> FileV {
        FileV {
            filename: self.filename@,
            kind: self.kind,
            detail: self.detail@,
            previous_details: self.previous_details@.map_values(|d: FileDetail| d@),
            update_time: self.update_time,
            update_by: self.update_by@,
        }
    }
}

/// The digest that stands for "no content": 32 zero bytes.
pub open spec fn zero_hash() -> Seq<u8> {
    Seq::new(32, |i: int| 0u8)
}

/// A digest is well formed when it has exactly 32 bytes.
pub open spec fn hash_wf(h: Seq<u8>) -> bool {
    h.len() == 32
}

/// Sum of the block lengths of a chain: the size of the tiled file.
pub open spec fn chain_size(blocks: Seq<BlockV>) -> int
    decreases blocks.len(),
{
    if blocks.len() == 0 {
        0
    } else {
        chain_size(blocks.drop_last()) + blocks.last().len
    }
}

/// A block chain tiles a file: block `i` starts where block `i - 1` ended,
/// every block but the last is exactly `BLOCK_SIZE` long, and the last is no
/// longer than `BLOCK_SIZE` (and empty only when it is the only block).
pub open spec fn chain_wf(c: ChainV) -> bool {
    &&& c.block_size == BLOCK_SIZE
    &&& c.blocks.len() >= 1
    &&& forall|i: int|
        0 <= i < c.blocks.len() ==> (#[trigger] c.blocks[i]).offset == i * (BLOCK_SIZE as int)
    &&& forall|i: int|
        0 <= i < c.blocks.len() - 1 ==> (#[trigger] c.blocks[i]).len == BLOCK_SIZE
    &&& c.blocks.last().len <= BLOCK_SIZE
    &&& (c.blocks.len() > 1 ==> c.blocks.last().len >= 1)
    &&& forall|i: int| 0 <= i < c.blocks.len() ==> hash_wf((#[trigger] c.blocks[i]).hash_sum)
    &&& chain_size(c.blocks) <= u64::MAX
}

/// A version record is well formed: 32-byte digest; a deletion carries the
/// all-zero digest and no chain; a live current version carries a well-formed
/// chain.
pub open spec fn detail_wf(d: DetailV) -> bool {
    &&& hash_wf(d.hash_sum)
    &&& d.gen >= 1
    &&& (d.deleted ==> d.block_chain is None && d.hash_sum == zero_hash())
    &&& (d.block_chain is Some ==> chain_wf(d.block_chain->0))
}

/// An index entry is well formed: its current detail is well formed and, when
/// live, carries a chain; retired details are chain-stripped, strictly
/// ascending in generation, and all older than the current one, which sits
/// exactly one generation above the newest retired detail (or at 1 when the
/// history is empty).
pub open spec fn index_file_wf(f: FileV) -> bool {
    &&& detail_wf(f.detail)
    &&& (!f.detail.deleted ==> f.detail.block_chain is Some)
    &&& forall|i: int| 0 <= i < f.previous_details.len() ==> detail_wf(#[trigger] f.previous_details[i])
    &&& forall|i: int|
        0 <= i < f.previous_details.len() ==> (#[trigger] f.previous_details[i]).block_chain is None
    &&& forall|i: int, j: int|
        0 <= i < j < f.previous_details.len()
            ==> (#[trigger] f.previous_details[i]).gen < (#[trigger] f.previous_details[j]).gen
    &&& forall|i: int|
        0 <= i < f.previous_details.len() ==> (#[trigger] f.previous_details[i]).gen < f.detail.gen
    &&& (f.previous_details.len() == 0 ==> f.detail.gen == 1)
    &&& (f.previous_details.len() > 0 ==> f.detail.gen == f.previous_details.last().gen + 1)
}

impl Clone for Block {
    fn clone(&self) -> (res: Self)
        ensures
            res@ == self@,
    {
        let res = Block {
            offset: self.offset,
            len: self.len,
            hash_sum: self.hash_sum.clone(),
        };
        proof {
            assert(res.hash_sum@ =~= self.hash_sum@);
        }
        res
    }
}

impl Clone for BlockChain {
    fn clone(&self) -> (res: Self)
        ensures
            res@ == self@,
    {
        let res = BlockChain {
            block_size: self.block_size,
            blocks: self.blocks.clone(),
        };
        proof {
            assert(res@.blocks =~= self@.blocks);
        }
        res
    }
}

impl Clone for FileDetail {
    fn clone(&self) -> (res: Self)
        ensures
            res@ == self@,
    {
        let block_chain = match &self.block_chain {
            Option::None => Option::None,
            Option::Some(c) => Option::Some(c.clone()),
        };
        let res = FileDetail {
            gen: self.gen,
            hash_sum: self.hash_sum.clone(),
            block_chain,
            deleted: self.deleted,
        };
        proof {
            assert(res.hash_sum@ =~= self.hash_sum@);
        }
        res
    }
}

impl Clone for IndexFile {
    fn clone(&self) -> (res: Self)
        ensures
            res@ == self@,
    {
        let res = IndexFile {
            filename: self.filename.clone(),
            kind: self.kind,
            detail: self.detail.clone(),
            previous_details: self.previous_details.clone(),
            update_time: self.update_time,
            update_by: self.update_by.clone(),
        };
        proof {
            assert(res@.previous_details =~= self@.previous_details);
        }
        res
    }
}

/// The key of an index entry: its filename.
pub open spec fn by_filename() -> spec_fn(FileV) -> Seq<char> {
    |f: FileV| f.filename
}

/// Failures of the index store.
#[derive(Clone, Copy, PartialEq, Eq, Structural, Debug)]
pub enum Error {
    /// `create_file` was asked to create a name that already exists.
    AlreadyExists,
}

/// A transaction over the index: a snapshot of the entries, whose writes are
/// published only by [`IndexStore::commit`].
pub struct IndexGuard {
    files: Vec<IndexFile>,
}

impl View for IndexGuard {
    type V = Seq<FileV>;

    closed spec fn view(&self) -> Seq<FileV> {
        self.files@.map_values(|f: IndexFile| f@)
    }
}

impl IndexGuard {
    /// Names are unique and every entry is well formed.
    pub open spec fn inv(&self) -> bool {
        &&& keys_unique(self@, by_filename())
        &&& forall|i: int| 0 <= i < self@.len() ==> index_file_wf(#[trigger] self@[i])
    }

    /// The map this transaction currently holds.
    pub open spec fn map_view(&self) -> Map<Seq<char>, FileV> {
        key_map(self@, by_filename())
    }

    fn find(&self, filename: &String) -> (r: Option<usize>)
        ensures
            match r {
                Option::Some(i) => i < self@.len() && self@[i as int].filename == filename@,
                Option::None => forall|i: int| 0 <= i < self@.len() ==> (#[trigger] self@[i]).filename != filename@,
            },
    {
        let n = self.files.len();
        let mut i: usize = 0;
        while i < n
            invariant
                n == self.files.len(),
                i <= n,
                forall|j: int| 0 <= j < i ==> (#[trigger] self@[j]).filename != filename@,
            decreases n - i,
        {
            if self.files[i].filename == *filename {
                return Option::Some(i);
            }
            i = i + 1;
        }
        Option::None
    }

    /// Look a filename up in the transaction.
    pub fn get_file(&self, filename: &String) -> (r: Option<IndexFile>)
        requires
            self.inv(),
        ensures
            match r {
                Option::Some(f) => self.map_view().dom().contains(filename@)
                    && f@ == self.map_view()[filename@],
                Option::None => !self.map_view().dom().contains(filename@),
            },
    {
        proof {
            lemma_key_map_dom(self@, by_filename(), filename@);
        }
        match self.find(filename) {
            Option::Some(i) => {
                proof {
                    lemma_key_map_get(self@, by_filename(), i as int);
                }
                Option::Some(self.files[i].clone())
            }
            Option::None => Option::None,
        }
    }

    /// Add a new entry; refused when the name already exists.
    pub fn create_file(&mut self, file: &IndexFile) -> (r: Result<(), Error>)
        requires
            old(self).inv(),
            index_file_wf(file@),
        ensures
            final(self).inv(),
            match r {
                Result::Ok(()) => !old(self).map_view().dom().contains(file@.filename)
                    && final(self)@ == old(self)@.push(file@)
                    && final(self).map_view() == old(self).map_view().insert(file@.filename, file@),
                Result::Err(Error::AlreadyExists) => old(self).map_view().dom().contains(file@.filename)
                    && final(self)@ == old(self)@,
            },
    {
        proof {
            lemma_key_map_dom(self@, by_filename(), file.filename@);
        }
        match self.find(&file.filename) {
            Option::Some(_) => Result::Err(Error::AlreadyExists),
            Option::None => {
                self.files.push(file.clone());
                proof {
                    assert(self@ =~= old(self)@.push(file@));
                    lemma_key_map_push(old(self)@, by_filename(), file@);
                }
                Result::Ok(())
            }
        }
    }

    /// Replace the entry under the file's name entirely, adding it when absent.
    pub fn update_file(&mut self, file: &IndexFile)
        requires
            old(self).inv(),
            index_file_wf(file@),
        ensures
            final(self).inv(),
            final(self)@ == upsert_seq(old(self)@, by_filename(), file@),
            final(self).map_view() == old(self).map_view().insert(file@.filename, file@),
    {
        proof {
            lemma_key_map_dom(self@, by_filename(), file.filename@);
            lemma_upsert_seq_map(self@, by_filename(), file@);
        }
        match self.find(&file.filename) {
            Option::Some(i) => {
                self.files.set(i, file.clone());
                proof {
                    assert(self@ =~= old(self)@.update(i as int, file@));
                    lemma_upsert_seq_update(old(self)@, by_filename(), file@, i as int);
                }
            }
            Option::None => {
                self.files.push(file.clone());
                proof {
                    assert(self@ =~= old(self)@.push(file@));
                    lemma_upsert_seq_push(old(self)@, by_filename(), file@);
                }
            }
        }
    }

    /// All entries of the transaction, in listing order.
    pub fn list_all_files(&self) -> (r: Vec<IndexFile>)
        ensures
            r@.map_values(|f: IndexFile| f@) == self@,
    {
        let n = self.files.len();
        let mut r: Vec<IndexFile> = Vec::new();
        let mut i: usize = 0;
        while i < n
            invariant
                n == self.files.len(),
                i <= n,
                r@.len() == i,
                forall|j: int| 0 <= j < i ==> (#[trigger] r@[j])@ == self@[j],
            decreases n - i,
        {
            r.push(self.files[i].clone());
            i = i + 1;
        }
        proof {
            assert(r@.map_values(|f: IndexFile| f@) =~= self@);
        }
        r
    }
}

/// The index store: the committed entries. `begin` opens a transaction over a
/// snapshot; only `commit` publishes a transaction's writes, and a guard that
/// is dropped instead leaves the store unchanged.
pub struct IndexStore {
    files: Vec<IndexFile>,
}

impl View for IndexStore {
    type V = Seq<FileV>;

    closed spec fn view(&self) -> Seq<FileV> {
        self.files@.map_values(|f: IndexFile| f@)
    }
}

impl IndexStore {
    /// Names are unique and every entry is well formed.
    pub open spec fn inv(&self) -> bool {
        &&& keys_unique(self@, by_filename())
        &&& forall|i: int| 0 <= i < self@.len() ==> index_file_wf(#[trigger] self@[i])
    }

    /// The map the store currently holds.
    pub open spec fn map_view(&self) -> Map<Seq<char>, FileV> {
        key_map(self@, by_filename())
    }

    /// An empty index.
    pub fn new() -> (r: IndexStore)
        ensures
            r@ == Seq::<FileV>::empty(),
            r.inv(),
    {
        let r = IndexStore { files: Vec::new() };
        proof {
            assert(r@ =~= Seq::<FileV>::empty());
        }
        r
    }

    /// Open a transaction: a snapshot of the current entries.
    pub fn begin(&self) -> (g: IndexGuard)
        requires
            self.inv(),
        ensures
            g@ == self@,
            g.inv(),
    {
        let n = self.files.len();
        let mut files: Vec<IndexFile> = Vec::new();
        let mut i: usize = 0;
        while i < n
            invariant
                n == self.files.len(),
                i <= n,
                files@.len() == i,
                forall|j: int| 0 <= j < i ==> (#[trigger] files@[j])@ == self@[j],
            decreases n - i,
        {
            files.push(self.files[i].clone());
            i = i + 1;
        }
        let g = IndexGuard { files };
        proof {
            assert(g@ =~= self@);
        }
        g
    }

    /// Publish a transaction's writes.
    pub fn commit(&mut self, guard: IndexGuard)
        requires
            guard.inv(),
        ensures
            final(self)@ == guard@,
            final(self).inv(),
    {
        self.files = guard.files;
    }
}

/// Whether two blocks hold the same offset, length and digest.
pub fn blocks_equal(a: &Block, b: &Block) -> (r: bool)
    ensures
        r == (a@ == b@),
{
    let r = a.offset == b.offset && a.len == b.len && a.hash_sum == b.hash_sum;
    proof {
        if a.hash_sum@ == b.hash_sum@ {
            assert(a.hash_sum@.len() == b.hash_sum@.len());
            assert(forall|i: int| 0 <= i < a.hash_sum@.len() ==> a.hash_sum@[i] == b.hash_sum@[i]);
        }
        if r {
            assert(a.hash_sum@ =~= b.hash_sum@);
        }
    }
    r
}

/// Whether two block chains are equal in every field.
pub fn chains_equal(a: &BlockChain, b: &BlockChain) -> (r: bool)
    ensures
        r == (a@ == b@),
{
    if a.block_size != b.block_size {
        return false;
    }
    let n = a.blocks.len();
    if n != b.blocks.len() {
        proof {
            assert(a@.blocks.len() != b@.blocks.len());
        }
        return false;
    }
    let mut i: usize = 0;
    while i < n
        invariant
            n == a.blocks@.len(),
            n == b.blocks@.len(),
            i <= n,
            a.block_size == b.block_size,
            forall|j: int| 0 <= j < i ==> a@.blocks[j] == b@.blocks[j],
        decreases n - i,
    {
        if !blocks_equal(&a.blocks[i], &b.blocks[i]) {
            proof {
                assert(a@.blocks[i as int] != b@.blocks[i as int]);
            }
            return false;
        }
        i = i + 1;
    }
    proof {
        assert(a@.blocks =~= b@.blocks);
    }
    true
}

/// Whether two version records are equal in every field.
pub fn details_equal(a: &FileDetail, b: &FileDetail) -> (r: bool)
    ensures
        r == (a@ == b@),
{
    if a.gen != b.gen || a.deleted != b.deleted {
        return false;
    }
    if !(a.hash_sum == b.hash_sum) {
        proof {
            if a.hash_sum@ == b.hash_sum@ {
                assert(a.hash_sum@.len() == b.hash_sum@.len());
                assert(forall|i: int|
                    0 <= i < a.hash_sum@.len() ==> a.hash_sum@[i] == b.hash_sum@[i]);
            }
        }
        return false;
    }
    proof {
        assert(a.hash_sum@ =~= b.hash_sum@);
    }
    match (&a.block_chain, &b.block_chain) {
        (Option::None, Option::None) => true,
        (Option::Some(ca), Option::Some(cb)) => chains_equal(ca, cb),
        _ => false,
    }
}

/// Whether two index entries are equal in every field.
pub fn index_files_equal(a: &IndexFile, b: &IndexFile) -> (r: bool)
    ensures
        r == (a@ == b@),
{
    if !(a.filename == b.filename) {
        return false;
    }
    if !(a.kind == b.kind) {
        return false;
    }
    if a.update_time != b.update_time {
        return false;
    }
    if !(a.update_by == b.update_by) {
        return false;
    }
    if !details_equal(&a.detail, &b.detail) {
        return false;
    }
    let n = a.previous_details.len();
    if n != b.previous_details.len() {
        proof {
            assert(a@.previous_details.len() != b@.previous_details.len());
        }
        return false;
    }
    let mut i: usize = 0;
    while i < n
        invariant
            n == a.previous_details@.len(),
            n == b.previous_details@.len(),
            i <= n,
            a@.filename == b@.filename,
            a@.kind == b@.kind,
            a@.update_time == b@.update_time,
            a@.update_by == b@.update_by,
            a@.detail == b@.detail,
            forall|j: int| 0 <= j < i ==> a@.previous_details[j] == b@.previous_details[j],
        decreases n - i,
    {
        if !details_equal(&a.previous_details[i], &b.previous_details[i]) {
            proof {
                assert(a@.previous_details[i as int] != b@.previous_details[i as int]);
            }
            return false;
        }
        i = i + 1;
    }
    proof {
        assert(a@.previous_details =~= b@.previous_details);
    }
    true
}

} // verus!

//! The index update rules shared by the event handlers: how a version is
//! retired into the history ("bumping" the generation), how fresh entries and
//! deletion records are formed, and how a state of entries is searched.

use vstd::prelude::*;

use crate::dir::SyncDir;
use crate::hasher::{hash_file, sha256_of, spec_chain_of};
use crate::index::{
    by_filename, detail_wf, hash_wf, index_file_wf, zero_hash, DetailV, FileDetail, FileKind,
    FileV, IndexFile, IndexGuard, Sha256sum,
};
use crate::dir::EntryV;
use crate::keyed::{key_map, keys_unique, lemma_key_map_dom, lemma_key_map_get,
    lemma_upsert_seq_map, upsert_seq};

verus! {

/// Look a filename up in a state of entries.
pub open spec fn lookup(s: Seq<FileV>, name: Seq<char>) -> Option<FileV> {
    let m = key_map(s, by_filename());
    if m.dom().contains(name) {
        Option::Some(m[name])
    } else {
        Option::None
    }
}

/// Every entry's generation leaves `slack` headroom below `u32::MAX`.
pub open spec fn gens_bounded(s: Seq<FileV>, slack: int) -> bool {
    forall|i: int| 0 <= i < s.len() ==> (#[trigger] s[i]).detail.gen + slack <= u32::MAX
}

/// A looked-up entry is one of the state's records.
pub proof fn lemma_lookup_is_entry(s: Seq<FileV>, name: Seq<char>)
    requires
        keys_unique(s, by_filename()),
        lookup(s, name) is Some,
    ensures
        exists|i: int| 0 <= i < s.len() && #[trigger] s[i] == lookup(s, name)->0,
{
    lemma_key_map_dom(s, by_filename(), name);
    let i = choose|i: int| 0 <= i < s.len() && (by_filename())(#[trigger] s[i]) == name;
    assert((|f: FileV| f.filename)(s[i]) == name);
    lemma_key_map_get(s, by_filename(), i);
    assert(s[i] == lookup(s, name)->0);
}

/// A looked-up entry of a well-formed state is well formed.
pub proof fn lemma_lookup_wf(s: Seq<FileV>, name: Seq<char>)
    requires
        keys_unique(s, by_filename()),
        forall|i: int| 0 <= i < s.len() ==> index_file_wf(#[trigger] s[i]),
        lookup(s, name) is Some,
    ensures
        index_file_wf(lookup(s, name)->0),
{
    lemma_lookup_is_entry(s, name);
}

/// A detail as it is retired into the history: its chain stripped.
pub open spec fn stripped(d: DetailV) -> DetailV {
    DetailV { block_chain: Option::None, ..d }
}

/// The detail recording a deletion at generation `g`.
pub open spec fn spec_deleted_detail(g: u32) -> DetailV {
    DetailV { gen: g, hash_sum: zero_hash(), block_chain: Option::None, deleted: true }
}

/// The detail recording live content at generation `g`.
pub open spec fn spec_live_detail(g: u32, data: Seq<u8>) -> DetailV {
    DetailV {
        gen: g,
        hash_sum: sha256_of(data),
        block_chain: Option::Some(spec_chain_of(data)),
        deleted: false,
    }
}

/// Retire the current detail of `f` into its history and install `nd` as the
/// new current detail, stamping time and author.
pub open spec fn spec_bump(f: FileV, nd: DetailV, now: u64, by: Seq<char>) -> FileV {
    FileV {
        detail: nd,
        previous_details: f.previous_details.push(stripped(f.detail)),
        update_time: now,
        update_by: by,
        ..f
    }
}

/// A brand-new entry at generation 1 for freshly hashed content.
pub open spec fn spec_fresh_file(
    name: Seq<char>,
    data: Seq<u8>,
    now: u64,
    by: Seq<char>,
) -> FileV {
    FileV {
        filename: name,
        kind: FileKind::File,
        detail: spec_live_detail(1, data),
        previous_details: Seq::empty(),
        update_time: now,
        update_by: by,
    }
}

/// Bumping a well-formed entry with a well-formed next detail at the next
/// generation yields a well-formed entry.
pub proof fn lemma_bump_wf(f: FileV, nd: DetailV, now: u64, by: Seq<char>)
    requires
        index_file_wf(f),
        detail_wf(nd),
        nd.gen == f.detail.gen + 1,
        !nd.deleted ==> nd.block_chain is Some,
    ensures
        index_file_wf(spec_bump(f, nd, now, by)),
{
    let r = spec_bump(f, nd, now, by);
    assert(detail_wf(stripped(f.detail)));
    assert(r.previous_details.last() == stripped(f.detail));
    assert(forall|i: int|
        0 <= i < f.previous_details.len() ==> r.previous_details[i] == f.previous_details[i]);
}

/// A zero digest: the in-band marker for "deleted, no content".
pub fn zero_hash_sum() -> (r: Sha256sum)
    ensures
        r@ == zero_hash(),
        hash_wf(r@),
{
    let r: Vec<u8> = vec![0u8; 32];
    proof {
        assert(r@ =~= zero_hash());
    }
    r
}

/// Whether two digests hold the same bytes.
pub fn hash_eq(a: &Sha256sum, b: &Sha256sum) -> (r: bool)
    ensures
        r == (a@ == b@),
{
    let r = a == b;
    proof {
        if r {
            assert(a@ =~= b@);
        } else {
            if a@ == b@ {
                assert(a@.len() == b@.len());
                assert(forall|i: int| 0 <= i < a@.len() ==> a@[i] == b@[i]);
            }
        }
    }
    r
}

/// Retire the current detail of `file` and install the new one, stamping time
/// and author: the executable form of [`spec_bump`].
pub fn bump_file(file: &IndexFile, new_detail: FileDetail, now: u64, user_id: &String) -> (r:
    IndexFile)
    requires
        index_file_wf(file@),
        detail_wf(new_detail@),
        new_detail@.gen == file@.detail.gen + 1,
        !new_detail@.deleted ==> new_detail@.block_chain is Some,
    ensures
        r@ == spec_bump(file@, new_detail@, now, user_id@),
        index_file_wf(r@),
        r@.filename == file@.filename,
{
    let mut r = file.clone();
    let mut old_detail = file.detail.clone();
    old_detail.block_chain = Option::None;
    proof {
        assert(old_detail@ == stripped(file@.detail));
    }
    r.previous_details.push(old_detail);
    r.detail = new_detail;
    r.update_time = now;
    r.update_by = user_id.clone();
    proof {
        assert(r@.previous_details =~= spec_bump(
            file@,
            new_detail@,
            now,
            user_id@,
        ).previous_details);
        assert(r@ == spec_bump(file@, new_detail@, now, user_id@));
        lemma_bump_wf(file@, new_detail@, now, user_id@);
    }
    r
}

/// Build the deletion detail that follows `file`'s current version.
pub fn deleted_detail_after(file: &IndexFile) -> (r: FileDetail)
    requires
        file@.detail.gen < u32::MAX,
    ensures
        r@ == spec_deleted_detail((file@.detail.gen + 1) as u32),
        detail_wf(r@),
    {
    let r = FileDetail {
        gen: file.detail.gen + 1,
        hash_sum: zero_hash_sum(),
        block_chain: Option::None,
        deleted: true,
    };
    r
}

/// Build a brand-new entry at generation 1 for the given content: the
/// executable form of [`spec_fresh_file`].
pub fn fresh_file(name: &String, content: &Vec<u8>, now: u64, user_id: &String) -> (r: IndexFile)
    requires
        content@.len() <= u64::MAX,
    ensures
        r@ == spec_fresh_file(name@, content@, now, user_id@),
        index_file_wf(r@),
{
    let (hash_sum, block_chain) = hash_file(content);
    let r = IndexFile {
        filename: name.clone(),
        kind: FileKind::File,
        detail: FileDetail {
            gen: 1,
            hash_sum,
            block_chain: Option::Some(block_chain),
            deleted: false,
        },
        previous_details: Vec::new(),
        update_time: now,
        update_by: user_id.clone(),
    };
    proof {
        assert(r@.previous_details =~= Seq::<DetailV>::empty());
        assert(r@ == spec_fresh_file(name@, content@, now, user_id@));
    }
    r
}

/// Content of the named file in the directory, when present.
pub open spec fn dir_content(d: Map<Seq<char>, EntryV>, name: Seq<char>) -> Option<Seq<u8>> {
    if d.dom().contains(name) {
        Option::Some(d[name].content)
    } else {
        Option::None
    }
}

/// The entry a Delete event (or a missing file) leaves behind: the current
/// version bumped to a deletion, unless the index has no live entry.
pub open spec fn spec_delete_event(s: Seq<FileV>, name: Seq<char>, now: u64, by: Seq<char>)
    -> Option<FileV> {
    match lookup(s, name) {
        Option::None => Option::None,
        Option::Some(f) => if f.detail.deleted {
            Option::None
        } else {
            Option::Some(spec_bump(f, spec_deleted_detail((f.detail.gen + 1) as u32), now, by))
        },
    }
}

/// The entry an Add or Modify event produces: a fresh entry, a live bump, a
/// deletion bump when the file is gone, or nothing when the content already
/// matches.
pub open spec fn spec_upsert_event(
    s: Seq<FileV>,
    name: Seq<char>,
    content: Option<Seq<u8>>,
    now: u64,
    by: Seq<char>,
) -> Option<FileV> {
    match content {
        Option::None => spec_delete_event(s, name, now, by),
        Option::Some(data) => match lookup(s, name) {
            Option::None => Option::Some(spec_fresh_file(name, data, now, by)),
            Option::Some(f) => if !f.detail.deleted && f.detail.hash_sum == sha256_of(data) {
                Option::None
            } else {
                Option::Some(
                    spec_bump(f, spec_live_detail((f.detail.gen + 1) as u32, data), now, by),
                )
            },
        },
    }
}

/// Install an optional new entry into the state.
pub open spec fn apply_opt(s: Seq<FileV>, r: Option<FileV>) -> Seq<FileV> {
    match r {
        Option::None => s,
        Option::Some(f) => upsert_seq(s, by_filename(), f),
    }
}

/// An optional rumor as a batch of zero or one.
pub open spec fn opt_seq(r: Option<FileV>) -> Seq<FileV> {
    match r {
        Option::None => Seq::empty(),
        Option::Some(f) => seq![f],
    }
}

/// A looked-up entry is one of the state's records, so its generation obeys
/// any bound the state obeys.
pub proof fn lemma_lookup_gen(s: Seq<FileV>, name: Seq<char>, k: int)
    requires
        keys_unique(s, by_filename()),
        gens_bounded(s, k),
        lookup(s, name) is Some,
    ensures
        lookup(s, name)->0.detail.gen + k <= u32::MAX,
{
    lemma_lookup_is_entry(s, name);
}

/// Installing an entry whose generation leaves `k - 1` headroom into a state
/// with `k` headroom leaves a state with `k - 1` headroom.
pub proof fn lemma_apply_gens(s: Seq<FileV>, r: Option<FileV>, k: int)
    requires
        gens_bounded(s, k),
        r is Some ==> r->0.detail.gen + k - 1 <= u32::MAX,
        k >= 1,
    ensures
        gens_bounded(apply_opt(s, r), k - 1),
{
    match r {
        Option::None => {},
        Option::Some(f) => {
            crate::keyed::lemma_upsert_seq_elements(s, by_filename(), f);
            let t = upsert_seq(s, by_filename(), f);
            assert forall|j: int| 0 <= j < t.len() implies (#[trigger] t[j]).detail.gen + (k - 1)
                <= u32::MAX by {
                if t[j] != f {
                    let i = choose|i: int| 0 <= i < s.len() && t[j] == s[i];
                    assert(s[i].detail.gen + k <= u32::MAX);
                }
            }
        },
    }
}

/// A bound with more headroom also holds with less.
pub proof fn lemma_gens_weaken(s: Seq<FileV>, k: int)
    requires
        gens_bounded(s, k),
        k >= 1,
    ensures
        gens_bounded(s, k - 1),
{
}

/// The entry any single step installs has at most the looked-up generation
/// plus one, so the step spends one unit of headroom.
pub proof fn lemma_step_gens(s: Seq<FileV>, r: Option<FileV>, name: Seq<char>, k: int)
    requires
        keys_unique(s, by_filename()),
        gens_bounded(s, k),
        1 <= k <= u32::MAX,
        r is Some ==> r->0.detail.gen == 1 || (lookup(s, name) is Some && r->0.detail.gen
            == lookup(s, name)->0.detail.gen + 1),
    ensures
        keys_unique(apply_opt(s, r), by_filename()),
        gens_bounded(apply_opt(s, r), k - 1),
{
    match r {
        Option::None => {},
        Option::Some(f) => {
            if f.detail.gen != 1 {
                lemma_lookup_gen(s, name, k);
            }
            lemma_apply_gens(s, r, k);
            lemma_upsert_seq_map(s, by_filename(), f);
        },
    }
}


/// Apply the Add/Modify rules for one name: hash the file and create or bump
/// its entry, fall back to a deletion bump when the file is gone, and do
/// nothing when the content already matches.
pub fn apply_upsert_step(
    user_id: &String,
    name: &String,
    dir: &SyncDir,
    index_guard: &mut IndexGuard,
    now: u64,
) -> (r: Option<IndexFile>)
    requires
        old(index_guard).inv(),
        dir.inv(),
        gens_bounded(old(index_guard)@, 1),
    ensures
        final(index_guard).inv(),
        ({
            let res = spec_upsert_event(
                old(index_guard)@,
                name@,
                dir_content(dir.map_view(), name@),
                now,
                user_id@,
            );
            &&& final(index_guard)@ == apply_opt(old(index_guard)@, res)
            &&& (r is Some <==> res is Some)
            &&& (r is Some ==> r->0@ == res->0)
        }),
{
    match dir.read(name) {
        Option::None => apply_delete_step(user_id, name, index_guard, now),
        Option::Some(content) => {
            let n = content.len();
            proof {
                assert(content@.len() == n);
            }
            let (hash_sum, block_chain) = hash_file(&content);
            match index_guard.get_file(name) {
                Option::None => {
                    let file = fresh_file(name, &content, now, user_id);
                    let created = index_guard.create_file(&file);
                    proof {
                        assert(created is Ok);
                        lemma_key_map_dom(old(index_guard)@, by_filename(), name@);
                        assert(forall|i: int|
                            0 <= i < old(index_guard)@.len()
                                ==> (by_filename())(#[trigger] old(index_guard)@[i])
                                != (by_filename())(file@));
                        crate::keyed::lemma_upsert_seq_push(
                            old(index_guard)@,
                            by_filename(),
                            file@,
                        );
                    }
                    Option::Some(file)
                }
                Option::Some(local) => {
                    if !local.detail.deleted && hash_eq(&local.detail.hash_sum, &hash_sum) {
                        Option::None
                    } else {
                        proof {
                            lemma_lookup_gen(old(index_guard)@, name@, 1);
                            lemma_lookup_wf(old(index_guard)@, name@);
                        }
                        let new_detail = FileDetail {
                            gen: local.detail.gen + 1,
                            hash_sum,
                            block_chain: Option::Some(block_chain),
                            deleted: false,
                        };
                        proof {
                            assert(new_detail@ == spec_live_detail(
                                (local@.detail.gen + 1) as u32,
                                content@,
                            ));
                        }
                        let bumped = bump_file(&local, new_detail, now, user_id);
                        index_guard.update_file(&bumped);
                        Option::Some(bumped)
                    }
                }
            }
        }
    }
}


/// Apply the deletion rules for one name: bump the live entry to a deletion,
/// or do nothing when the index has none or it is already deleted.
pub fn apply_delete_step(user_id: &String, name: &String, index_guard: &mut IndexGuard, now: u64) -> (r: Option<
    IndexFile,
>)
    requires
        old(index_guard).inv(),
        gens_bounded(old(index_guard)@, 1),
    ensures
        final(index_guard).inv(),
        ({
            let res = spec_delete_event(old(index_guard)@, name@, now, user_id@);
            &&& final(index_guard)@ == apply_opt(old(index_guard)@, res)
            &&& (r is Some <==> res is Some)
            &&& (r is Some ==> r->0@ == res->0)
        }),
{
    match index_guard.get_file(name) {
        Option::None => Option::None,
        Option::Some(local) => {
            if local.detail.deleted {
                Option::None
            } else {
                proof {
                    lemma_lookup_gen(old(index_guard)@, name@, 1);
                    lemma_lookup_wf(old(index_guard)@, name@);
                }
                let new_detail = deleted_detail_after(&local);
                let bumped = bump_file(&local, new_detail, now, user_id);
                index_guard.update_file(&bumped);
                Option::Some(bumped)
            }
        }
    }
}


} // verus!

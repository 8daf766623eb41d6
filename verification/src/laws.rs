//! The library's general laws, each proved once and for all: the shape of
//! persisted version histories, the determinism of hashing, and monotonicity,
//! idempotence and quiescence of rumor application.

use vstd::prelude::*;

use crate::dir::EntryV;
use crate::hasher::hash_file;
use crate::index::{by_filename, BlockChain, FileV, IndexStore, Sha256sum};
use crate::keyed::{keys_unique, lemma_upsert_seq_map};
use crate::rumors::{spec_apply_rumor, spec_handle_rumors, spec_plan, PlanV};
use crate::transfer::DownloadBlockV;
use crate::update::lookup;

verus! {

/// Every entry the index store holds keeps the version-history shape: the
/// current generation is above every retired one, the retired details ascend
/// strictly in generation, and none of them carries a block chain.
pub proof fn lemma_persisted_file_invariants(store: IndexStore, i: int)
    requires
        store.inv(),
        0 <= i < store@.len(),
    ensures
        store@[i].detail.gen >= 1,
        forall|j: int|
            0 <= j < store@[i].previous_details.len()
                ==> (#[trigger] store@[i].previous_details[j]).gen < store@[i].detail.gen,
        forall|j: int, k: int|
            0 <= j < k < store@[i].previous_details.len()
                ==> (#[trigger] store@[i].previous_details[j]).gen < (
            #[trigger] store@[i].previous_details[k]).gen,
        forall|j: int|
            0 <= j < store@[i].previous_details.len()
                ==> (#[trigger] store@[i].previous_details[j]).block_chain is None,
{
}

/// Hashing the same bytes twice yields the same digest and the same chain.
pub proof fn lemma_hash_file_deterministic(
    content: Vec<u8>,
    r1: (Sha256sum, BlockChain),
    r2: (Sha256sum, BlockChain),
)
    requires
        call_ensures(hash_file, (&content,), r1),
        call_ensures(hash_file, (&content,), r2),
    ensures
        r1.0@ == r2.0@,
        r1.1@ == r2.1@,
{
}

/// Applying a rumor never lowers the generation the local index holds for its
/// filename, and a rumor that changed local state leaves the local generation
/// at least at the remote one.
pub proof fn lemma_apply_rumor_gen_monotone(
    s: Seq<FileV>,
    dseq: Seq<EntryV>,
    remote: FileV,
    blocks: Seq<Option<DownloadBlockV>>,
    now: u64,
)
    requires
        keys_unique(s, by_filename()),
    ensures
        ({
            let res = spec_apply_rumor(s, dseq, remote, blocks, now);
            &&& lookup(s, remote.filename) is Some ==> (lookup(res.0, remote.filename) is Some
                && lookup(res.0, remote.filename)->0.detail.gen >= lookup(
                s,
                remote.filename,
            )->0.detail.gen)
            &&& res.2 ==> (lookup(res.0, remote.filename) is Some && lookup(
                res.0,
                remote.filename,
            )->0.detail.gen >= remote.detail.gen)
        }),
{
    let res = spec_apply_rumor(s, dseq, remote, blocks, now);
    match spec_plan(s, remote) {
        PlanV::Ignore => {},
        PlanV::ApplyDeleted { conflict } => {
            lemma_upsert_seq_map(s, by_filename(), remote);
            assert((by_filename())(remote) == remote.filename);
        },
        PlanV::Fetch { delta, base_local, conflict } => {
            if res.2 {
                lemma_upsert_seq_map(s, by_filename(), remote);
                assert((by_filename())(remote) == remote.filename);
            }
        },
    }
}

/// Re-applying a rumor the local index already holds exactly is a no-op: no
/// index change, no directory change, and nothing to rebroadcast.
pub proof fn lemma_apply_rumor_idempotent(
    s: Seq<FileV>,
    dseq: Seq<EntryV>,
    remote: FileV,
    blocks: Seq<Option<DownloadBlockV>>,
    now: u64,
)
    requires
        keys_unique(s, by_filename()),
        lookup(s, remote.filename) == Option::Some(remote),
    ensures
        spec_apply_rumor(s, dseq, remote, blocks, now) == (s, dseq, false),
{
    assert(spec_plan(s, remote) == PlanV::Ignore);
}

/// Applying a rumor batch that matches local state exactly changes nothing
/// and emits no rumors.
pub proof fn lemma_rumors_quiescent(
    s: Seq<FileV>,
    dseq: Seq<EntryV>,
    rumors: Seq<FileV>,
    downloads: Seq<Seq<Option<DownloadBlockV>>>,
    now: u64,
)
    requires
        keys_unique(s, by_filename()),
        forall|i: int|
            0 <= i < rumors.len() ==> lookup(s, (#[trigger] rumors[i]).filename) == Option::Some(
                rumors[i],
            ),
    ensures
        spec_handle_rumors(s, dseq, rumors, downloads, now) == (
            s,
            dseq,
            Seq::<FileV>::empty(),
        ),
    decreases rumors.len(),
{
    if rumors.len() == 0 {
    } else {
        assert(forall|i: int|
            0 <= i < rumors.drop_last().len() ==> lookup(
                s,
                (#[trigger] rumors.drop_last()[i]).filename,
            ) == Option::Some(rumors.drop_last()[i]));
        lemma_rumors_quiescent(s, dseq, rumors.drop_last(), downloads.drop_last(), now);
        assert(rumors[rumors.len() - 1] == rumors.last());
        lemma_apply_rumor_idempotent(s, dseq, rumors.last(), downloads.last(), now);
    }
}

} // verus!

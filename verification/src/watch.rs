//! Applying local filesystem deltas to the index. Each event is handled in a
//! transaction of its own; the rumors the events produce are broadcast to all
//! peers in one batch at the end.

use vstd::prelude::*;

use crate::dir::{EntryV, SyncDir};
use crate::events::{SendRumors, WatchEvent, WatchEventV};
use crate::hasher::hash_file;
use crate::index::{by_filename, FileDetail, FileV, IndexFile, IndexGuard, IndexStore};
use crate::keyed::{lemma_key_map_dom, upsert_seq};
use crate::update::{
    apply_delete_step, apply_opt, apply_upsert_step, bump_file, dir_content, fresh_file,
    gens_bounded, lemma_apply_gens, lemma_lookup_gen, lemma_gens_weaken, lemma_step_gens,
    lookup, opt_seq, spec_bump, spec_delete_event, spec_fresh_file, spec_live_detail,
    spec_upsert_event,
};

verus! {

/// The entry the new-name half of a rename produces: fresh when unknown, else
/// a live bump (even when the content is unchanged).
pub open spec fn spec_rename_target(
    s: Seq<FileV>,
    name: Seq<char>,
    data: Seq<u8>,
    now: u64,
    by: Seq<char>,
) -> FileV {
    match lookup(s, name) {
        Option::None => spec_fresh_file(name, data, now, by),
        Option::Some(f) => spec_bump(f, spec_live_detail((f.detail.gen + 1) as u32, data), now, by),
    }
}

/// State and rumors after one watch event.
pub open spec fn spec_watch_event(
    s: Seq<FileV>,
    d: Map<Seq<char>, EntryV>,
    ev: WatchEventV,
    now: u64,
    by: Seq<char>,
) -> (Seq<FileV>, Seq<FileV>) {
    match ev {
        WatchEventV::Add { name } => {
            let r = spec_upsert_event(s, name, dir_content(d, name), now, by);
            (apply_opt(s, r), opt_seq(r))
        },
        WatchEventV::Modify { name } => {
            let r = spec_upsert_event(s, name, dir_content(d, name), now, by);
            (apply_opt(s, r), opt_seq(r))
        },
        WatchEventV::Delete { name } => {
            let r = spec_delete_event(s, name, now, by);
            (apply_opt(s, r), opt_seq(r))
        },
        WatchEventV::Rename { old_name, new_name } => {
            let r1 = spec_delete_event(s, old_name, now, by);
            let s1 = apply_opt(s, r1);
            match dir_content(d, new_name) {
                Option::None => {
                    let r2 = spec_delete_event(s1, new_name, now, by);
                    (apply_opt(s1, r2), opt_seq(r1) + opt_seq(r2))
                },
                Option::Some(data) => {
                    let r2 = spec_rename_target(s1, new_name, data, now, by);
                    (upsert_seq(s1, by_filename(), r2), opt_seq(r1) + seq![r2])
                },
            }
        },
    }
}

/// State and rumors after a batch of watch events, in order.
pub open spec fn spec_watch_events(
    s: Seq<FileV>,
    d: Map<Seq<char>, EntryV>,
    evs: Seq<WatchEventV>,
    now: u64,
    by: Seq<char>,
) -> (Seq<FileV>, Seq<FileV>)
    decreases evs.len(),
{
    if evs.len() == 0 {
        (s, Seq::empty())
    } else {
        let prev = spec_watch_events(s, d, evs.drop_last(), now, by);
        let step = spec_watch_event(prev.0, d, evs.last(), now, by);
        (step.0, prev.1 + step.1)
    }
}

/// Handles a batch of local filesystem deltas for one peer and directory.
pub struct WatchEventHandler {
    pub user_id: String,
    pub dir_id: String,
}

impl WatchEventHandler {
    /// A handler acting as the given peer on the given share.
    pub fn new(user_id: &String, dir_id: &String) -> (r: Self)
        ensures
            r.user_id@ == user_id@,
            r.dir_id@ == dir_id@,
    {
        WatchEventHandler { user_id: user_id.clone(), dir_id: dir_id.clone() }
    }

    /// Apply one Add event: hash the file and create or bump its entry, or
    /// record a deletion when the file is already gone.
    pub fn handle_add_watch_event(
        &self,
        name: &String,
        dir: &SyncDir,
        index_guard: &mut IndexGuard,
        now: u64,
    ) -> (r: Option<IndexFile>)
        requires
            old(index_guard).inv(),
            dir.inv(),
            gens_bounded(old(index_guard)@, 1),
        ensures
            final(index_guard).inv(),
            ({
                let res = spec_upsert_event(
                    old(index_guard)@,
                    name@,
                    dir_content(dir.map_view(), name@),
                    now,
                    self.user_id@,
                );
                &&& final(index_guard)@ == apply_opt(old(index_guard)@, res)
                &&& (r is Some <==> res is Some)
                &&& (r is Some ==> r->0@ == res->0)
            }),
    {
        apply_upsert_step(&self.user_id, name, dir, index_guard, now)
    }

    /// Apply one Modify event; the rules are those of an Add event.
    pub fn handle_modify_watch_event(
        &self,
        name: &String,
        dir: &SyncDir,
        index_guard: &mut IndexGuard,
        now: u64,
    ) -> (r: Option<IndexFile>)
        requires
            old(index_guard).inv(),
            dir.inv(),
            gens_bounded(old(index_guard)@, 1),
        ensures
            final(index_guard).inv(),
            ({
                let res = spec_upsert_event(
                    old(index_guard)@,
                    name@,
                    dir_content(dir.map_view(), name@),
                    now,
                    self.user_id@,
                );
                &&& final(index_guard)@ == apply_opt(old(index_guard)@, res)
                &&& (r is Some <==> res is Some)
                &&& (r is Some ==> r->0@ == res->0)
            }),
    {
        apply_upsert_step(&self.user_id, name, dir, index_guard, now)
    }

    /// Apply one Delete event: bump the live entry to a deletion, or do
    /// nothing when the index has none.
    pub fn handle_delete_watch_event(
        &self,
        name: &String,
        index_guard: &mut IndexGuard,
        now: u64,
    ) -> (r: Option<IndexFile>)
        requires
            old(index_guard).inv(),
            gens_bounded(old(index_guard)@, 1),
        ensures
            final(index_guard).inv(),
            ({
                let res = spec_delete_event(old(index_guard)@, name@, now, self.user_id@);
                &&& final(index_guard)@ == apply_opt(old(index_guard)@, res)
                &&& (r is Some <==> res is Some)
                &&& (r is Some ==> r->0@ == res->0)
            }),
    {
        apply_delete_step(&self.user_id, name, index_guard, now)
    }

    /// Apply one Rename event. When the new path exists, the old entry is
    /// bumped to a deletion and the new one created or bumped with the fresh
    /// hash; when the new path is missing too, both names are bumped to
    /// deletions.
    pub fn handle_rename_watch_event(
        &self,
        old_name: &String,
        new_name: &String,
        dir: &SyncDir,
        index_guard: &mut IndexGuard,
        now: u64,
    ) -> (r: Option<Vec<IndexFile>>)
        requires
            old(index_guard).inv(),
            dir.inv(),
            gens_bounded(old(index_guard)@, 2),
        ensures
            final(index_guard).inv(),
            ({
                let res = spec_watch_event(
                    old(index_guard)@,
                    dir.map_view(),
                    WatchEventV::Rename { old_name: old_name@, new_name: new_name@ },
                    now,
                    self.user_id@,
                );
                &&& final(index_guard)@ == res.0
                &&& match r {
                    Option::None => res.1.len() == 0,
                    Option::Some(v) => v@.map_values(|f: IndexFile| f@) == res.1,
                }
            }),
    {
        let ghost s0 = index_guard@;
        let ghost r1 = spec_delete_event(s0, old_name@, now, self.user_id@);
        let mut rumors: Vec<IndexFile> = Vec::new();
        let first = apply_delete_step(&self.user_id, old_name, index_guard, now);
        proof {
            lemma_gens_weaken(s0, 2);
            if r1 is Some {
                lemma_lookup_gen(s0, old_name@, 2);
            }
            lemma_apply_gens(s0, r1, 2);
        }
        match first {
            Option::None => {}
            Option::Some(f) => {
                rumors.push(f);
            }
        }
        let ghost s1 = index_guard@;
        match dir.read(new_name) {
            Option::None => {
                let second = apply_delete_step(&self.user_id, new_name, index_guard, now);
                match second {
                    Option::None => {}
                    Option::Some(f) => {
                        rumors.push(f);
                    }
                }
            }
            Option::Some(content) => {
                let n = content.len();
                proof {
                    assert(content@.len() == n);
                }
                let (hash_sum, block_chain) = hash_file(&content);
                match index_guard.get_file(new_name) {
                    Option::None => {
                        let file = fresh_file(new_name, &content, now, &self.user_id);
                        let created = index_guard.create_file(&file);
                        proof {
                            assert(created is Ok);
                            lemma_key_map_dom(s1, by_filename(), new_name@);
                            assert(forall|i: int|
                                0 <= i < s1.len()
                                    ==> (by_filename())(#[trigger] s1[i])
                                    != (by_filename())(file@));
                            crate::keyed::lemma_upsert_seq_push(s1, by_filename(), file@);
                        }
                        rumors.push(file);
                    }
                    Option::Some(local) => {
                        proof {
                            lemma_lookup_gen(s1, new_name@, 1);
                            crate::update::lemma_lookup_wf(s1, new_name@);
                        }
                        let new_detail = FileDetail {
                            gen: local.detail.gen + 1,
                            hash_sum,
                            block_chain: Option::Some(block_chain),
                            deleted: false,
                        };
                        proof {
                            assert(new_detail@ == spec_live_detail(
                                (local@.detail.gen + 1) as u32,
                                content@,
                            ));
                        }
                        let bumped = bump_file(&local, new_detail, now, &self.user_id);
                        index_guard.update_file(&bumped);
                        rumors.push(bumped);
                    }
                }
            }
        }
        proof {
            let res = spec_watch_event(
                s0,
                dir.map_view(),
                WatchEventV::Rename { old_name: old_name@, new_name: new_name@ },
                now,
                self.user_id@,
            );
            assert(rumors@.map_values(|f: IndexFile| f@) =~= res.1);
        }
        if rumors.len() == 0 {
            Option::None
        } else {
            Option::Some(rumors)
        }
    }

    /// Handle a batch of watch events: each in a transaction of its own,
    /// committed before the next, and one rumor batch to all peers at the end
    /// (none when no event changed anything).
    pub fn handle_watch_events(
        &self,
        index: &mut IndexStore,
        dir: &SyncDir,
        watch_events: &Vec<WatchEvent>,
        now: u64,
    ) -> (r: Option<SendRumors>)
        requires
            old(index).inv(),
            dir.inv(),
            gens_bounded(old(index)@, 2 * watch_events@.len() as int),
            2 * watch_events@.len() as int <= u32::MAX,
        ensures
            final(index).inv(),
            ({
                let res = spec_watch_events(
                    old(index)@,
                    dir.map_view(),
                    watch_events@.map_values(|e: WatchEvent| e@),
                    now,
                    self.user_id@,
                );
                &&& final(index)@ == res.0
                &&& match r {
                    Option::None => res.1.len() == 0,
                    Option::Some(sr) => res.1.len() > 0 && sr@.rumors == res.1
                        && sr@.except is None && sr@.dir_id == self.dir_id@,
                }
            }),
    {
        let ghost s0 = index@;
        let ghost dmap = dir.map_view();
        let ghost evs = watch_events@.map_values(|e: WatchEvent| e@);
        let n = watch_events.len();
        let mut rumors: Vec<IndexFile> = Vec::new();
        let mut i: usize = 0;
        while i < n
            invariant
                n == watch_events@.len(),
                i <= n,
                dir.inv(),
                index.inv(),
                dmap == dir.map_view(),
                evs == watch_events@.map_values(|e: WatchEvent| e@),
                2 * n <= u32::MAX,
                gens_bounded(index@, 2 * (n - i)),
                index@ == spec_watch_events(s0, dmap, evs.subrange(0, i as int), now, self.user_id@).0,
                rumors@.map_values(|f: IndexFile| f@) == spec_watch_events(
                    s0,
                    dmap,
                    evs.subrange(0, i as int),
                    now,
                    self.user_id@,
                ).1,
            decreases n - i,
        {
            let ghost pre = index@;
            let ghost pre_rumors = rumors@.map_values(|f: IndexFile| f@);
            let mut guard = index.begin();
            proof {
                assert(evs[i as int] == watch_events@[i as int]@);
            }
            match &watch_events[i] {
                WatchEvent::Add { name } => {
                    let rumor = self.handle_add_watch_event(name, dir, &mut guard, now);
                    match rumor {
                        Option::None => {}
                        Option::Some(f) => {
                            rumors.push(f);
                        }
                    }
                }
                WatchEvent::Modify { name } => {
                    let rumor = self.handle_modify_watch_event(name, dir, &mut guard, now);
                    match rumor {
                        Option::None => {}
                        Option::Some(f) => {
                            rumors.push(f);
                        }
                    }
                }
                WatchEvent::Rename { old_name, new_name } => {
                    let rename_rumors = self.handle_rename_watch_event(
                        old_name,
                        new_name,
                        dir,
                        &mut guard,
                        now,
                    );
                    match rename_rumors {
                        Option::None => {}
                        Option::Some(mut v) => {
                            rumors.append(&mut v);
                        }
                    }
                }
                WatchEvent::Delete { name } => {
                    let rumor = self.handle_delete_watch_event(name, &mut guard, now);
                    match rumor {
                        Option::None => {}
                        Option::Some(f) => {
                            rumors.push(f);
                        }
                    }
                }
            }
            index.commit(guard);
            proof {
                let step = spec_watch_event(pre, dmap, evs[i as int], now, self.user_id@);
                assert(index@ == step.0);
                assert(rumors@.map_values(|f: IndexFile| f@) =~= pre_rumors + step.1);
                assert(evs.subrange(0, i + 1 as int).drop_last() =~= evs.subrange(0, i as int));
                assert(evs.subrange(0, i + 1 as int).last() == evs[i as int]);
                lemma_watch_event_gens(pre, dmap, evs[i as int], now, self.user_id@, 2 * (n - i));
            }
            i = i + 1;
        }
        proof {
            assert(evs.subrange(0, n as int) =~= evs);
        }
        self.send_rumors_to_all(rumors)
    }

    /// Wrap collected rumors for broadcast to every peer; an empty collection
    /// sends nothing.
    pub fn send_rumors_to_all(&self, rumors: Vec<IndexFile>) -> (r: Option<SendRumors>)
        ensures
            match r {
                Option::None => rumors@.len() == 0,
                Option::Some(sr) => rumors@.len() > 0 && sr@.rumors == rumors@.map_values(
                    |f: IndexFile| f@,
                ) && sr@.except is None && sr@.dir_id == self.dir_id@,
            },
    {
        if rumors.len() == 0 {
            Option::None
        } else {
            Option::Some(SendRumors { dir_id: self.dir_id.clone(), rumors, except: Option::None })
        }
    }
}

/// One watch event raises any entry's generation by at most two (a rename of
/// a name onto itself bumps it twice), so two units of headroom are spent.
pub proof fn lemma_watch_event_gens(
    s: Seq<FileV>,
    d: Map<Seq<char>, EntryV>,
    ev: WatchEventV,
    now: u64,
    by: Seq<char>,
    k: int,
)
    requires
        crate::keyed::keys_unique(s, by_filename()),
        gens_bounded(s, k),
        2 <= k <= u32::MAX,
    ensures
        crate::keyed::keys_unique(spec_watch_event(s, d, ev, now, by).0, by_filename()),
        gens_bounded(spec_watch_event(s, d, ev, now, by).0, k - 2),
{
    match ev {
        WatchEventV::Add { name } => {
            if lookup(s, name) is Some {
                lemma_lookup_gen(s, name, k);
            }
            lemma_step_gens(s, spec_upsert_event(s, name, dir_content(d, name), now, by), name, k);
            lemma_gens_weaken(apply_opt(s, spec_upsert_event(s, name, dir_content(d, name), now, by)), k - 1);
        },
        WatchEventV::Modify { name } => {
            if lookup(s, name) is Some {
                lemma_lookup_gen(s, name, k);
            }
            lemma_step_gens(s, spec_upsert_event(s, name, dir_content(d, name), now, by), name, k);
            lemma_gens_weaken(apply_opt(s, spec_upsert_event(s, name, dir_content(d, name), now, by)), k - 1);
        },
        WatchEventV::Delete { name } => {
            if lookup(s, name) is Some {
                lemma_lookup_gen(s, name, k);
            }
            lemma_step_gens(s, spec_delete_event(s, name, now, by), name, k);
            lemma_gens_weaken(apply_opt(s, spec_delete_event(s, name, now, by)), k - 1);
        },
        WatchEventV::Rename { old_name, new_name } => {
            let r1 = spec_delete_event(s, old_name, now, by);
            if lookup(s, old_name) is Some {
                lemma_lookup_gen(s, old_name, k);
            }
            lemma_step_gens(s, r1, old_name, k);
            let s1 = apply_opt(s, r1);
            match dir_content(d, new_name) {
                Option::None => {
                    let r2 = spec_delete_event(s1, new_name, now, by);
                    if lookup(s1, new_name) is Some {
                        lemma_lookup_gen(s1, new_name, k - 1);
                    }
                    lemma_step_gens(s1, r2, new_name, k - 1);
                },
                Option::Some(data) => {
                    let r2 = spec_rename_target(s1, new_name, data, now, by);
                    if lookup(s1, new_name) is Some {
                        lemma_lookup_gen(s1, new_name, k - 1);
                    }
                    lemma_step_gens(s1, Option::Some(r2), new_name, k - 1);
                },
            }
        },
    }
}

} // verus!

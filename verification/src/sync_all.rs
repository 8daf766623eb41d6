//! Full reconciliation of the directory against the index in one
//! transaction: files gone from disk are bumped to deletions, files new on
//! disk are created or revived, files whose content changed are bumped, and
//! the resulting index is broadcast to all peers.

use vstd::prelude::*;

use crate::dir::{EntryV, SyncDir};
use crate::events::SendRumors;
use crate::index::{FileV, IndexFile, IndexGuard, IndexStore};
use crate::update::{
    apply_delete_step, apply_opt, apply_upsert_step, dir_content, gens_bounded, lemma_lookup_gen,
    lemma_step_gens, lookup, spec_delete_event, spec_upsert_event,
};

verus! {

/// Names on disk that the index does not know, or knows only as deleted.
pub open spec fn spec_new_files(entries: Seq<EntryV>, s: Seq<FileV>) -> Seq<Seq<char>>
    decreases entries.len(),
{
    if entries.len() == 0 {
        Seq::empty()
    } else {
        let rest = spec_new_files(entries.drop_last(), s);
        let name = entries.last().name;
        match lookup(s, name) {
            Option::None => rest.push(name),
            Option::Some(f) => if f.detail.deleted {
                rest.push(name)
            } else {
                rest
            },
        }
    }
}

/// Names the index holds live that are gone from disk.
pub open spec fn spec_delete_files(s: Seq<FileV>, d: Map<Seq<char>, EntryV>) -> Seq<Seq<char>>
    decreases s.len(),
{
    if s.len() == 0 {
        Seq::empty()
    } else {
        let rest = spec_delete_files(s.drop_last(), d);
        let f = s.last();
        if !f.detail.deleted && !d.dom().contains(f.filename) {
            rest.push(f.filename)
        } else {
            rest
        }
    }
}

/// Names on disk that the index holds live.
pub open spec fn spec_exists_files(entries: Seq<EntryV>, s: Seq<FileV>) -> Seq<Seq<char>>
    decreases entries.len(),
{
    if entries.len() == 0 {
        Seq::empty()
    } else {
        let rest = spec_exists_files(entries.drop_last(), s);
        let name = entries.last().name;
        match lookup(s, name) {
            Option::None => rest,
            Option::Some(f) => if f.detail.deleted {
                rest
            } else {
                rest.push(name)
            },
        }
    }
}

/// The state after bumping each named entry to a deletion, in order.
pub open spec fn spec_fold_deletes(s: Seq<FileV>, names: Seq<Seq<char>>, now: u64, by: Seq<char>)
    -> Seq<FileV>
    decreases names.len(),
{
    if names.len() == 0 {
        s
    } else {
        let prev = spec_fold_deletes(s, names.drop_last(), now, by);
        apply_opt(prev, spec_delete_event(prev, names.last(), now, by))
    }
}

/// The state after applying the Add/Modify rules to each named entry with its
/// on-disk content, in order.
pub open spec fn spec_fold_upserts(
    s: Seq<FileV>,
    d: Map<Seq<char>, EntryV>,
    names: Seq<Seq<char>>,
    now: u64,
    by: Seq<char>,
) -> Seq<FileV>
    decreases names.len(),
{
    if names.len() == 0 {
        s
    } else {
        let prev = spec_fold_upserts(s, d, names.drop_last(), now, by);
        apply_opt(
            prev,
            spec_upsert_event(prev, names.last(), dir_content(d, names.last()), now, by),
        )
    }
}

/// The index after a full reconciliation of the directory against it.
pub open spec fn spec_sync_all(
    s: Seq<FileV>,
    entries: Seq<EntryV>,
    d: Map<Seq<char>, EntryV>,
    now: u64,
    by: Seq<char>,
) -> Seq<FileV> {
    let s1 = spec_fold_deletes(s, spec_delete_files(s, d), now, by);
    let s2 = spec_fold_upserts(s1, d, spec_new_files(entries, s), now, by);
    spec_fold_upserts(s2, d, spec_exists_files(entries, s), now, by)
}

/// A filtered name list is never longer than its source.
proof fn lemma_new_files_len(entries: Seq<EntryV>, s: Seq<FileV>)
    ensures
        spec_new_files(entries, s).len() <= entries.len(),
    decreases entries.len(),
{
    if entries.len() > 0 {
        lemma_new_files_len(entries.drop_last(), s);
    }
}

proof fn lemma_exists_files_len(entries: Seq<EntryV>, s: Seq<FileV>)
    ensures
        spec_exists_files(entries, s).len() <= entries.len(),
    decreases entries.len(),
{
    if entries.len() > 0 {
        lemma_exists_files_len(entries.drop_last(), s);
    }
}

proof fn lemma_delete_files_len(s: Seq<FileV>, d: Map<Seq<char>, EntryV>)
    ensures
        spec_delete_files(s, d).len() <= s.len(),
    decreases s.len(),
{
    if s.len() > 0 {
        lemma_delete_files_len(s.drop_last(), d);
    }
}

/// Names on disk that are absent from the index or recorded as deleted.
pub fn get_new_files(dir: &SyncDir, index_guard: &IndexGuard) -> (r: Vec<String>)
    requires
        dir.inv(),
        index_guard.inv(),
    ensures
        r@.map_values(|n: String| n@) == spec_new_files(dir@, index_guard@),
{
    let names = dir.names();
    let mut r: Vec<String> = Vec::new();
    let n = names.len();
    let mut i: usize = 0;
    while i < n
        invariant
            n == names@.len(),
            n == dir@.len(),
            i <= n,
            dir.inv(),
            index_guard.inv(),
            forall|j: int| 0 <= j < n ==> (#[trigger] names@[j])@ == dir@[j].name,
            r@.map_values(|x: String| x@) == spec_new_files(dir@.subrange(0, i as int), index_guard@),
        decreases n - i,
    {
        let ghost pre = r@.map_values(|x: String| x@);
        let keep = match index_guard.get_file(&names[i]) {
            Option::None => true,
            Option::Some(f) => f.detail.deleted,
        };
        if keep {
            r.push(names[i].clone());
        }
        proof {
            assert(dir@.subrange(0, i + 1 as int).drop_last() =~= dir@.subrange(0, i as int));
            assert(dir@.subrange(0, i + 1 as int).last() == dir@[i as int]);
            if keep {
                assert(r@.map_values(|x: String| x@) =~= pre.push(dir@[i as int].name));
            }
        }
        i = i + 1;
    }
    proof {
        assert(dir@.subrange(0, n as int) =~= dir@);
    }
    r
}

/// Names the index holds live that are gone from disk.
pub fn get_delete_files(dir: &SyncDir, index_guard: &IndexGuard) -> (r: Vec<String>)
    requires
        dir.inv(),
        index_guard.inv(),
    ensures
        r@.map_values(|n: String| n@) == spec_delete_files(index_guard@, dir.map_view()),
{
    let files = index_guard.list_all_files();
    let mut r: Vec<String> = Vec::new();
    let n = files.len();
    let mut i: usize = 0;
    while i < n
        invariant
            n == files@.len(),
            files@.map_values(|f: IndexFile| f@) == index_guard@,
            i <= n,
            dir.inv(),
            r@.map_values(|x: String| x@) == spec_delete_files(
                index_guard@.subrange(0, i as int),
                dir.map_view(),
            ),
        decreases n - i,
    {
        let ghost pre = r@.map_values(|x: String| x@);
        proof {
            assert(files@[i as int]@ == index_guard@[i as int]);
        }
        let keep = !files[i].detail.deleted && !dir.contains(&files[i].filename);
        if keep {
            r.push(files[i].filename.clone());
        }
        proof {
            assert(index_guard@.subrange(0, i + 1 as int).drop_last() =~= index_guard@.subrange(
                0,
                i as int,
            ));
            assert(index_guard@.subrange(0, i + 1 as int).last() == index_guard@[i as int]);
            if keep {
                assert(r@.map_values(|x: String| x@) =~= pre.push(index_guard@[i as int].filename));
            }
        }
        i = i + 1;
    }
    proof {
        assert(index_guard@.subrange(0, n as int) =~= index_guard@);
    }
    r
}

/// Names on disk that the index holds live.
pub fn get_exists_files(dir: &SyncDir, index_guard: &IndexGuard) -> (r: Vec<String>)
    requires
        dir.inv(),
        index_guard.inv(),
    ensures
        r@.map_values(|n: String| n@) == spec_exists_files(dir@, index_guard@),
{
    let names = dir.names();
    let mut r: Vec<String> = Vec::new();
    let n = names.len();
    let mut i: usize = 0;
    while i < n
        invariant
            n == names@.len(),
            n == dir@.len(),
            i <= n,
            dir.inv(),
            index_guard.inv(),
            forall|j: int| 0 <= j < n ==> (#[trigger] names@[j])@ == dir@[j].name,
            r@.map_values(|x: String| x@) == spec_exists_files(
                dir@.subrange(0, i as int),
                index_guard@,
            ),
        decreases n - i,
    {
        let ghost pre = r@.map_values(|x: String| x@);
        let keep = match index_guard.get_file(&names[i]) {
            Option::None => false,
            Option::Some(f) => !f.detail.deleted,
        };
        if keep {
            r.push(names[i].clone());
        }
        proof {
            assert(dir@.subrange(0, i + 1 as int).drop_last() =~= dir@.subrange(0, i as int));
            assert(dir@.subrange(0, i + 1 as int).last() == dir@[i as int]);
            if keep {
                assert(r@.map_values(|x: String| x@) =~= pre.push(dir@[i as int].name));
            }
        }
        i = i + 1;
    }
    proof {
        assert(dir@.subrange(0, n as int) =~= dir@);
    }
    r
}

/// Runs a full reconciliation pass for one peer and directory.
pub struct SyncAllHandler {
    pub user_id: String,
    pub dir_id: String,
}

impl SyncAllHandler {
    /// A handler acting as the given peer on the given share.
    pub fn new(user_id: &String, dir_id: &String) -> (r: Self)
        ensures
            r.user_id@ == user_id@,
            r.dir_id@ == dir_id@,
    {
        SyncAllHandler { user_id: user_id.clone(), dir_id: dir_id.clone() }
    }

    /// Bump the named entries to deletions, then apply the Add/Modify rules to
    /// the new and existing names with their on-disk content, and return the
    /// whole resulting index listing.
    pub fn update_index(
        &self,
        new_files: &Vec<String>,
        delete_files: &Vec<String>,
        exists_files: &Vec<String>,
        dir: &SyncDir,
        index_guard: &mut IndexGuard,
        now: u64,
    ) -> (r: Vec<IndexFile>)
        requires
            old(index_guard).inv(),
            dir.inv(),
            gens_bounded(
                old(index_guard)@,
                new_files@.len() + delete_files@.len() + exists_files@.len() as int,
            ),
            new_files@.len() + delete_files@.len() + exists_files@.len() <= u32::MAX,
        ensures
            final(index_guard).inv(),
            ({
                let dels = delete_files@.map_values(|x: String| x@);
                let news = new_files@.map_values(|x: String| x@);
                let exs = exists_files@.map_values(|x: String| x@);
                let s1 = spec_fold_deletes(old(index_guard)@, dels, now, self.user_id@);
                let s2 = spec_fold_upserts(s1, dir.map_view(), news, now, self.user_id@);
                let s3 = spec_fold_upserts(s2, dir.map_view(), exs, now, self.user_id@);
                &&& final(index_guard)@ == s3
                &&& r@.map_values(|f: IndexFile| f@) == s3
            }),
    {
        let ghost by = self.user_id@;
        let ghost dels = delete_files@.map_values(|x: String| x@);
        let ghost news = new_files@.map_values(|x: String| x@);
        let ghost exs = exists_files@.map_values(|x: String| x@);
        let ghost s0 = index_guard@;
        let ghost total = news.len() + dels.len() + exs.len();

        let nd = delete_files.len();
        let mut i: usize = 0;
        while i < nd
            invariant
                nd == dels.len(),
                by == self.user_id@,
                i <= nd,
                dir.inv(),
                index_guard.inv(),
                dels == delete_files@.map_values(|x: String| x@),
                total == news.len() + dels.len() + exs.len(),
                total <= u32::MAX,
                gens_bounded(index_guard@, total - i),
                index_guard@ == spec_fold_deletes(s0, dels.subrange(0, i as int), now, by),
            decreases nd - i,
        {
            let ghost pre = index_guard@;
            proof {
                assert(dels[i as int] == delete_files@[i as int]@);
                if lookup(pre, dels[i as int]) is Some {
                    lemma_lookup_gen(pre, dels[i as int], total - i);
                }
            }
            apply_delete_step(&self.user_id, &delete_files[i], index_guard, now);
            proof {
                assert(index_guard@ == apply_opt(
                    pre,
                    spec_delete_event(pre, dels[i as int], now, by),
                ));
                lemma_step_gens(
                    pre,
                    spec_delete_event(pre, dels[i as int], now, by),
                    dels[i as int],
                    total - i,
                );
                assert(gens_bounded(index_guard@, total - i - 1));
                assert(dels.subrange(0, i + 1 as int).drop_last() =~= dels.subrange(0, i as int));
                assert(dels.subrange(0, i + 1 as int).last() == dels[i as int]);
                assert(spec_fold_deletes(s0, dels.subrange(0, i + 1 as int), now, by)
                    == apply_opt(pre, spec_delete_event(pre, dels[i as int], now, by)));
            }
            i = i + 1;
        }
        proof {
            assert(dels.subrange(0, nd as int) =~= dels);
        }

        let ghost s1 = index_guard@;
        let nn = new_files.len();
        let mut i: usize = 0;
        while i < nn
            invariant
                nn == news.len(),
                by == self.user_id@,
                i <= nn,
                dir.inv(),
                index_guard.inv(),
                news == new_files@.map_values(|x: String| x@),
                total == news.len() + dels.len() + exs.len(),
                total <= u32::MAX,
                gens_bounded(index_guard@, total - dels.len() - i),
                index_guard@ == spec_fold_upserts(
                    s1,
                    dir.map_view(),
                    news.subrange(0, i as int),
                    now,
                    by,
                ),
            decreases nn - i,
        {
            let ghost pre = index_guard@;
            proof {
                assert(news[i as int] == new_files@[i as int]@);
                if lookup(pre, news[i as int]) is Some {
                    lemma_lookup_gen(pre, news[i as int], total - dels.len() - i);
                }
            }
            apply_upsert_step(&self.user_id, &new_files[i], dir, index_guard, now);
            proof {
                lemma_step_gens(
                    pre,
                    spec_upsert_event(
                        pre,
                        news[i as int],
                        dir_content(dir.map_view(), news[i as int]),
                        now,
                        by,
                    ),
                    news[i as int],
                    total - dels.len() - i,
                );
                assert(news.subrange(0, i + 1 as int).drop_last() =~= news.subrange(0, i as int));
                assert(news.subrange(0, i + 1 as int).last() == news[i as int]);
            }
            i = i + 1;
        }
        proof {
            assert(news.subrange(0, nn as int) =~= news);
        }

        let ghost s2 = index_guard@;
        let ne = exists_files.len();
        let mut i: usize = 0;
        while i < ne
            invariant
                ne == exs.len(),
                by == self.user_id@,
                i <= ne,
                dir.inv(),
                index_guard.inv(),
                exs == exists_files@.map_values(|x: String| x@),
                total == news.len() + dels.len() + exs.len(),
                total <= u32::MAX,
                gens_bounded(index_guard@, total - dels.len() - news.len() - i),
                index_guard@ == spec_fold_upserts(
                    s2,
                    dir.map_view(),
                    exs.subrange(0, i as int),
                    now,
                    by,
                ),
            decreases ne - i,
        {
            let ghost pre = index_guard@;
            proof {
                assert(exs[i as int] == exists_files@[i as int]@);
                if lookup(pre, exs[i as int]) is Some {
                    lemma_lookup_gen(pre, exs[i as int], total - dels.len() - news.len() - i);
                }
            }
            apply_upsert_step(&self.user_id, &exists_files[i], dir, index_guard, now);
            proof {
                lemma_step_gens(
                    pre,
                    spec_upsert_event(
                        pre,
                        exs[i as int],
                        dir_content(dir.map_view(), exs[i as int]),
                        now,
                        by,
                    ),
                    exs[i as int],
                    total - dels.len() - news.len() - i,
                );
                assert(exs.subrange(0, i + 1 as int).drop_last() =~= exs.subrange(0, i as int));
                assert(exs.subrange(0, i + 1 as int).last() == exs[i as int]);
            }
            i = i + 1;
        }
        proof {
            assert(exs.subrange(0, ne as int) =~= exs);
        }

        index_guard.list_all_files()
    }

    /// Reconcile the directory against the index in one transaction and
    /// broadcast the whole resulting index to all peers (unconditionally,
    /// even when empty).
    pub fn handle_sync_all_event(&self, index: &mut IndexStore, dir: &SyncDir, now: u64) -> (r:
        SendRumors)
        requires
            old(index).inv(),
            dir.inv(),
            gens_bounded(old(index)@, old(index)@.len() + 2 * dir@.len() as int),
            old(index)@.len() + 2 * dir@.len() <= u32::MAX,
        ensures
            final(index).inv(),
            final(index)@ == spec_sync_all(old(index)@, dir@, dir.map_view(), now, self.user_id@),
            r@.rumors == final(index)@,
            r@.except is None,
            r@.dir_id == self.dir_id@,
    {
        let mut index_guard = index.begin();
        let new_files = get_new_files(dir, &index_guard);
        let delete_files = get_delete_files(dir, &index_guard);
        let exists_files = get_exists_files(dir, &index_guard);
        proof {
            lemma_new_files_len(dir@, index_guard@);
            lemma_exists_files_len(dir@, index_guard@);
            lemma_delete_files_len(index_guard@, dir.map_view());
            assert(gens_bounded(
                index_guard@,
                new_files@.len() + delete_files@.len() + exists_files@.len() as int,
            ));
        }
        let rumors = self.update_index(
            &new_files,
            &delete_files,
            &exists_files,
            dir,
            &mut index_guard,
            now,
        );
        index.commit(index_guard);
        SendRumors { dir_id: self.dir_id.clone(), rumors, except: Option::None }
    }
}

} // verus!

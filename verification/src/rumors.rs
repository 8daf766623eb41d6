//! Applying remote rumors to the local index and directory: deciding between
//! ignore, fast-forward, and conflict; selecting the blocks to download; and
//! overlaying the downloaded blocks onto the file content. A rumor that
//! changed local state is re-broadcast to every peer but its sender.

use vstd::prelude::*;
use vstd::string::StringExecFns;

use crate::dir::{by_name, EntryV, SyncDir};
use crate::events::SendRumors;
use crate::index::{
    blocks_equal, by_filename, chain_size, index_file_wf, index_files_equal, Block, BlockV,
    FileDetail, FileV, IndexFile, IndexGuard, IndexStore, Sha256sum,
};
use crate::keyed::{key_map, remove_seq, upsert_seq};
use crate::transfer::{DownloadBlock, DownloadBlockRequest, DownloadBlockV, RequestV};
use crate::update::{hash_eq, lookup};

verus! {

/// A sequence of zero bytes.
pub open spec fn zeros(n: int) -> Seq<u8> {
    Seq::new(n as nat, |i: int| 0u8)
}

/// Content cut or zero-extended to exactly `n` bytes.
pub open spec fn resize_content(c: Seq<u8>, n: int) -> Seq<u8> {
    if c.len() >= n {
        c.subrange(0, n)
    } else {
        c + zeros(n - c.len())
    }
}

/// Content with one downloaded block written at its offset; the content grows
/// (zero-filled) when the block reaches past its end.
pub open spec fn overlay_block(c: Seq<u8>, offset: int, data: Seq<u8>) -> Seq<u8> {
    let m = if c.len() >= offset + data.len() {
        c.len() as int
    } else {
        offset + data.len()
    };
    Seq::new(
        m as nat,
        |i: int|
            if offset <= i < offset + data.len() {
                data[i - offset]
            } else if i < c.len() {
                c[i]
            } else {
                0u8
            },
    )
}

/// Content with each downloaded block written at its offset, in order.
pub open spec fn overlay_blocks(c: Seq<u8>, blocks: Seq<DownloadBlockV>) -> Seq<u8>
    decreases blocks.len(),
{
    if blocks.len() == 0 {
        c
    } else {
        overlay_block(
            overlay_blocks(c, blocks.drop_last()),
            blocks.last().offset as int,
            blocks.last().data,
        )
    }
}

/// The views of a batch of download responses.
pub open spec fn block_views(blocks: Seq<Option<DownloadBlock>>) -> Seq<Option<DownloadBlockV>> {
    blocks.map_values(
        |b: Option<DownloadBlock>|
            match b {
                Option::None => Option::<DownloadBlockV>::None,
                Option::Some(x) => Option::Some(x@),
            },
    )
}

/// Whether the remote peer declined any requested block.
pub open spec fn any_missing(blocks: Seq<Option<DownloadBlockV>>) -> bool {
    exists|i: int| 0 <= i < blocks.len() && blocks[i] is None
}

/// The delivered blocks, in response order.
pub open spec fn delivered_blocks(blocks: Seq<Option<DownloadBlockV>>) -> Seq<DownloadBlockV>
    decreases blocks.len(),
{
    if blocks.len() == 0 {
        Seq::empty()
    } else {
        let rest = delivered_blocks(blocks.drop_last());
        match blocks.last() {
            Option::None => rest,
            Option::Some(b) => rest.push(b),
        }
    }
}

/// The request that fetches one block of one file.
pub open spec fn req_of(dir_id: Seq<char>, filename: Seq<char>, b: BlockV) -> RequestV {
    RequestV { dir_id, filename, offset: b.offset, len: b.len, hash_sum: b.hash_sum }
}

/// Requests for every block of a chain, in order.
pub open spec fn spec_all_requests(dir_id: Seq<char>, filename: Seq<char>, blocks: Seq<BlockV>)
    -> Seq<RequestV> {
    blocks.map_values(|b: BlockV| req_of(dir_id, filename, b))
}

/// Requests for the blocks of the remote chain that the local chain does not
/// already hold: a block differing at its position, or reaching past the
/// local chain's end.
pub open spec fn spec_delta_requests(
    dir_id: Seq<char>,
    filename: Seq<char>,
    remote: Seq<BlockV>,
    local: Seq<BlockV>,
) -> Seq<RequestV>
    decreases remote.len(),
{
    if remote.len() == 0 {
        Seq::empty()
    } else {
        let rest = spec_delta_requests(dir_id, filename, remote.drop_last(), local);
        let i = remote.len() - 1;
        if i >= local.len() || remote[i] != local[i] {
            rest.push(req_of(dir_id, filename, remote[i]))
        } else {
            rest
        }
    }
}

/// The sum of block lengths of any prefix is at most the sum of the whole.
proof fn lemma_chain_size_mono(blocks: Seq<BlockV>, i: int)
    requires
        0 <= i <= blocks.len(),
    ensures
        chain_size(blocks.subrange(0, i)) <= chain_size(blocks),
        chain_size(blocks.subrange(0, i)) >= 0,
    decreases blocks.len() - i,
{
    lemma_chain_size_nonneg(blocks.subrange(0, i));
    if i == blocks.len() {
        assert(blocks.subrange(0, i) =~= blocks);
    } else {
        lemma_chain_size_mono(blocks, i + 1);
        assert(blocks.subrange(0, i + 1).drop_last() =~= blocks.subrange(0, i));
        assert(blocks.subrange(0, i + 1).last() == blocks[i]);
    }
}

/// A sum of block lengths is never negative.
proof fn lemma_chain_size_nonneg(blocks: Seq<BlockV>)
    ensures
        chain_size(blocks) >= 0,
    decreases blocks.len(),
{
    if blocks.len() > 0 {
        lemma_chain_size_nonneg(blocks.drop_last());
    }
}

/// Sum of the block lengths of a chain: the size the tiled file must have.
pub fn chain_file_size(blocks: &Vec<Block>) -> (r: u64)
    requires
        chain_size(blocks@.map_values(|b: Block| b@)) <= u64::MAX,
    ensures
        r == chain_size(blocks@.map_values(|b: Block| b@)),
{
    let ghost bv = blocks@.map_values(|b: Block| b@);
    let n = blocks.len();
    let mut sum: u64 = 0;
    let mut i: usize = 0;
    while i < n
        invariant
            n == blocks@.len(),
            bv == blocks@.map_values(|b: Block| b@),
            chain_size(bv) <= u64::MAX,
            i <= n,
            sum == chain_size(bv.subrange(0, i as int)),
        decreases n - i,
    {
        proof {
            lemma_chain_size_mono(bv, i + 1);
            assert(bv.subrange(0, i + 1 as int).drop_last() =~= bv.subrange(0, i as int));
            assert(bv.subrange(0, i + 1 as int).last() == bv[i as int]);
            lemma_chain_size_nonneg(bv.subrange(0, i as int));
        }
        sum = sum + blocks[i].len;
        i = i + 1;
    }
    proof {
        assert(bv.subrange(0, n as int) =~= bv);
    }
    sum
}

/// Requests for every block of a chain.
pub fn blocks_to_download_block_requests(
    dir_id: &String,
    filename: &String,
    blocks: &Vec<Block>,
) -> (r: Vec<DownloadBlockRequest>)
    ensures
        r@.map_values(|q: DownloadBlockRequest| q@) == spec_all_requests(
            dir_id@,
            filename@,
            blocks@.map_values(|b: Block| b@),
        ),
{
    let n = blocks.len();
    let mut r: Vec<DownloadBlockRequest> = Vec::new();
    let mut i: usize = 0;
    while i < n
        invariant
            n == blocks@.len(),
            i <= n,
            r@.map_values(|q: DownloadBlockRequest| q@) =~= spec_all_requests(
                dir_id@,
                filename@,
                blocks@.map_values(|b: Block| b@),
            ).subrange(0, i as int),
        decreases n - i,
    {
        let ghost pre = r@.map_values(|q: DownloadBlockRequest| q@);
        let b = &blocks[i];
        r.push(DownloadBlockRequest {
            dir_id: dir_id.clone(),
            filename: filename.clone(),
            offset: b.offset,
            len: b.len,
            hash_sum: b.hash_sum.clone(),
        });
        proof {
            let all = spec_all_requests(dir_id@, filename@, blocks@.map_values(|x: Block| x@));
            assert(r@.map_values(|q: DownloadBlockRequest| q@) =~= pre.push(all[i as int]));
            assert(pre.push(all[i as int]) =~= all.subrange(0, i + 1 as int));
        }
        i = i + 1;
    }
    proof {
        let all = spec_all_requests(dir_id@, filename@, blocks@.map_values(|x: Block| x@));
        assert(all.subrange(0, all.len() as int) =~= all);
    }
    r
}

/// Requests for the remote blocks the local chain does not already hold.
pub fn compare_blocks(
    dir_id: &String,
    filename: &String,
    remote_blocks: &Vec<Block>,
    local_blocks: &Vec<Block>,
) -> (r: Vec<DownloadBlockRequest>)
    ensures
        r@.map_values(|q: DownloadBlockRequest| q@) == spec_delta_requests(
            dir_id@,
            filename@,
            remote_blocks@.map_values(|b: Block| b@),
            local_blocks@.map_values(|b: Block| b@),
        ),
{
    let ghost rv = remote_blocks@.map_values(|b: Block| b@);
    let ghost lv = local_blocks@.map_values(|b: Block| b@);
    let n = remote_blocks.len();
    let m = local_blocks.len();
    let mut r: Vec<DownloadBlockRequest> = Vec::new();
    let mut i: usize = 0;
    while i < n
        invariant
            n == remote_blocks@.len(),
            m == local_blocks@.len(),
            rv == remote_blocks@.map_values(|b: Block| b@),
            lv == local_blocks@.map_values(|b: Block| b@),
            i <= n,
            r@.map_values(|q: DownloadBlockRequest| q@) == spec_delta_requests(
                dir_id@,
                filename@,
                rv.subrange(0, i as int),
                lv,
            ),
        decreases n - i,
    {
        let ghost pre = r@.map_values(|q: DownloadBlockRequest| q@);
        let need = if i >= m {
            true
        } else {
            !blocks_equal(&remote_blocks[i], &local_blocks[i])
        };
        if need {
            let b = &remote_blocks[i];
            r.push(DownloadBlockRequest {
                dir_id: dir_id.clone(),
                filename: filename.clone(),
                offset: b.offset,
                len: b.len,
                hash_sum: b.hash_sum.clone(),
            });
        }
        proof {
            assert(rv.subrange(0, i + 1 as int).drop_last() =~= rv.subrange(0, i as int));
            assert(rv.subrange(0, i + 1 as int).last() == rv[i as int]);
            if need {
                assert(r@.map_values(|q: DownloadBlockRequest| q@) =~= pre.push(req_of(
                    dir_id@,
                    filename@,
                    rv[i as int],
                )));
            }
        }
        i = i + 1;
    }
    proof {
        assert(rv.subrange(0, n as int) =~= rv);
    }
    r
}

/// Cut or zero-extend content to exactly `n` bytes.
pub fn resize_to(content: Vec<u8>, n: u64) -> (r: Vec<u8>)
    requires
        n <= usize::MAX,
    ensures
        r@ == resize_content(content@, n as int),
{
    let mut r = content;
    let target = n as usize;
    if r.len() > target {
        r.truncate(target);
    } else {
        proof {
            assert(content@.subrange(0, content@.len() as int) =~= content@);
        }
        while r.len() < target
            invariant
                content@.len() <= r@.len() <= target,
                target <= usize::MAX,
                r@ == resize_content(content@, r@.len() as int),
            decreases target - r@.len(),
        {
            let ghost pre = r@;
            r.push(0u8);
            proof {
                assert(r@ =~= resize_content(content@, r@.len() as int));
            }
        }
    }
    proof {
        assert(r@ =~= resize_content(content@, n as int));
    }
    r
}

/// Write one downloaded block's bytes at its offset, zero-filling any gap
/// past the current end.
fn write_block_at(buf: &mut Vec<u8>, offset: u64, data: &Vec<u8>) -> (nothing: ())
    requires
        offset + data@.len() <= usize::MAX,
    ensures
        final(buf)@ == overlay_block(old(buf)@, offset as int, data@),
{
    let off = offset as usize;
    let end = off + data.len();
    let ghost extended = if old(buf)@.len() >= end as int {
        old(buf)@
    } else {
        old(buf)@ + zeros(end - old(buf)@.len())
    };
    while buf.len() < end
        invariant
            end <= usize::MAX,
            extended == if old(buf)@.len() >= end as int {
                old(buf)@
            } else {
                old(buf)@ + zeros(end - old(buf)@.len())
            },
            old(buf)@.len() <= buf@.len() <= end || buf@.len() == old(buf)@.len(),
            buf@ == extended.subrange(0, buf@.len() as int) || buf@ == old(buf)@,
            buf@.len() >= old(buf)@.len() ==> buf@ =~= extended.subrange(0, buf@.len() as int),
        decreases end - buf@.len(),
    {
        buf.push(0u8);
        proof {
            assert(buf@ =~= extended.subrange(0, buf@.len() as int));
        }
    }
    proof {
        assert(buf@ =~= extended);
    }
    let n = data.len();
    let mut j: usize = 0;
    while j < n
        invariant
            n == data@.len(),
            j <= n,
            off == offset,
            off + n <= usize::MAX,
            buf@.len() == extended.len(),
            extended.len() >= off + n,
            forall|k: int|
                0 <= k < buf@.len() ==> buf@[k] == (if off <= k < off + j {
                    data@[k - off]
                } else {
                    extended[k]
                }),
        decreases n - j,
    {
        buf.set(off + j, data[j]);
        j = j + 1;
    }
    proof {
        assert(buf@ =~= overlay_block(old(buf)@, offset as int, data@));
    }
}

/// Overlay a batch of downloaded blocks onto base content; a missing block
/// cancels the whole file and yields nothing.
pub fn sync_file(base: Vec<u8>, blocks: &Vec<Option<DownloadBlock>>) -> (r: Option<Vec<u8>>)
    requires
        forall|i: int|
            0 <= i < blocks@.len() ==> ((#[trigger] blocks@[i]) is Some
                ==> blocks@[i]->0.offset + blocks@[i]->0.data@.len() <= usize::MAX),
    ensures
        match r {
            Option::None => any_missing(block_views(blocks@)),
            Option::Some(c) => !any_missing(block_views(blocks@)) && c@ == overlay_blocks(
                base@,
                delivered_blocks(block_views(blocks@)),
            ),
        },
{
    let ghost bv = block_views(blocks@);
    let n = blocks.len();
    let mut i: usize = 0;
    while i < n
        invariant
            n == blocks@.len(),
            bv == block_views(blocks@),
            i <= n,
            forall|j: int| 0 <= j < i ==> (#[trigger] bv[j]) is Some,
        decreases n - i,
    {
        if blocks[i].is_none() {
            proof {
                assert(bv[i as int] is None);
            }
            return Option::None;
        }
        i = i + 1;
    }
    let mut content = base;
    let mut i: usize = 0;
    while i < n
        invariant
            n == blocks@.len(),
            bv == block_views(blocks@),
            i <= n,
            forall|j: int| 0 <= j < n ==> (#[trigger] bv[j]) is Some,
            forall|j: int|
                0 <= j < n ==> ((#[trigger] blocks@[j]) is Some
                    ==> blocks@[j]->0.offset + blocks@[j]->0.data@.len() <= usize::MAX),
            content@ == overlay_blocks(base@, delivered_blocks(bv.subrange(0, i as int))),
        decreases n - i,
    {
        match &blocks[i] {
            Option::Some(b) => {
                write_block_at(&mut content, b.offset, &b.data);
                proof {
                    assert(bv.subrange(0, i + 1 as int).drop_last() =~= bv.subrange(0, i as int));
                    assert(bv.subrange(0, i + 1 as int).last() == bv[i as int]);
                    assert(delivered_blocks(bv.subrange(0, i + 1 as int))
                        =~= delivered_blocks(bv.subrange(0, i as int)).push(bv[i as int]->0));
                    lemma_overlay_push(
                        base@,
                        delivered_blocks(bv.subrange(0, i as int)),
                        bv[i as int]->0,
                    );
                }
            }
            Option::None => {
                proof {
                    assert(false);
                }
            }
        }
        i = i + 1;
    }
    proof {
        assert(bv.subrange(0, n as int) =~= bv);
        assert(!any_missing(bv));
    }
    Option::Some(content)
}

/// Overlaying one more block is one more overlay step.
proof fn lemma_overlay_push(base: Seq<u8>, blocks: Seq<DownloadBlockV>, b: DownloadBlockV)
    ensures
        overlay_blocks(base, blocks.push(b)) == overlay_block(
            overlay_blocks(base, blocks),
            b.offset as int,
            b.data,
        ),
{
    assert(blocks.push(b).drop_last() =~= blocks);
    assert(blocks.push(b).last() == b);
}

/// The zone conflict-file timestamps are written in: UTC+8, as seconds east.
pub const CONFLICT_ZONE_OFFSET_SECONDS: i32 = 8 * 3600;

/// The "%Y-%m-%d-%H-%M-%S" text of an epoch second count in the zone the
/// given offset names, as the outside calendar library renders it.
pub uninterp spec fn timestamp_text(secs: u64, offset_seconds: i32) -> Seq<char>;

/// Relies on chrono's calendar arithmetic and formatting: the rendered text
/// of a given epoch second count in a fixed zone depends on those two values
/// alone.
#[verifier::external_body]
fn format_timestamp(secs: u64, offset_seconds: i32) -> (r: String)
    ensures
        r@ == timestamp_text(secs, offset_seconds),
{
    let zone = match chrono::FixedOffset::east_opt(offset_seconds) {
        Some(zone) => zone,
        None => return String::new(),
    };
    match chrono::DateTime::from_timestamp(secs as i64, 0) {
        Some(dt) => dt.with_timezone(&zone).format("%Y-%m-%d-%H-%M-%S").to_string(),
        None => String::new(),
    }
}

/// The name under which a file's pre-update content is preserved.
pub open spec fn spec_conflict_name(name: Seq<char>, now: u64) -> Seq<char> {
    name + "."@ + timestamp_text(now, CONFLICT_ZONE_OFFSET_SECONDS) + ".conflict"@
}

/// Build the conflict-file name for a file at the given time.
pub fn conflict_filename(filename: &String, now: u64) -> (r: String)
    ensures
        r@ == spec_conflict_name(filename@, now),
{
    let ts = format_timestamp(now, CONFLICT_ZONE_OFFSET_SECONDS);
    let r = filename.clone().concat(".").concat(ts.as_str()).concat(".conflict");
    r
}

/// The directory after preserving a file's current content under its conflict
/// name; a file absent from disk leaves nothing to preserve.
pub open spec fn spec_dir_after_conflict(dseq: Seq<EntryV>, name: Seq<char>, now: u64)
    -> Seq<EntryV> {
    let d = key_map(dseq, by_name());
    if d.dom().contains(name) {
        upsert_seq(
            dseq,
            by_name(),
            EntryV { name: spec_conflict_name(name, now), content: d[name].content },
        )
    } else {
        dseq
    }
}

/// Preserve a file's current content under its conflict name.
pub fn create_conflict_file_from(dir: &mut SyncDir, filename: &String, now: u64)
    requires
        old(dir).inv(),
    ensures
        final(dir).inv(),
        final(dir)@ == spec_dir_after_conflict(old(dir)@, filename@, now),
{
    match dir.read(filename) {
        Option::None => {},
        Option::Some(content) => {
            let conflict_name = conflict_filename(filename, now);
            dir.write(&conflict_name, content);
        }
    }
}

/// Whether the history holds a version with this generation and digest.
pub open spec fn spec_history_has(prev: Seq<crate::index::DetailV>, gen: u32, hash: Seq<u8>)
    -> bool {
    exists|i: int|
        0 <= i < prev.len() && (#[trigger] prev[i]).gen == gen && prev[i].hash_sum == hash
}

/// Whether the history holds a version with this generation and digest.
fn history_contains(details: &Vec<FileDetail>, gen: u32, hash_sum: &Sha256sum) -> (r: bool)
    ensures
        r == spec_history_has(details@.map_values(|d: FileDetail| d@), gen, hash_sum@),
{
    let ghost dv = details@.map_values(|d: FileDetail| d@);
    let n = details.len();
    let mut i: usize = 0;
    while i < n
        invariant
            n == details@.len(),
            dv == details@.map_values(|d: FileDetail| d@),
            i <= n,
            forall|j: int|
                0 <= j < i ==> !((#[trigger] dv[j]).gen == gen && dv[j].hash_sum == hash_sum@),
        decreases n - i,
    {
        if details[i].gen == gen && hash_eq(&details[i].hash_sum, hash_sum) {
            proof {
                assert(dv[i as int].gen == gen && dv[i as int].hash_sum == hash_sum@);
            }
            return true;
        }
        i = i + 1;
    }
    false
}

/// What a rumor asks of the local peer.
pub enum PlanV {
    /// The rumor is old, already applied, or loses the tie: nothing happens.
    Ignore,
    /// The remote version is a deletion to adopt: update the index, remove
    /// the file (preserving a conflict copy first when the histories diverge).
    ApplyDeleted { conflict: bool },
    /// Content must be fetched: a delta against the local chain or the whole
    /// file, onto the local bytes or a zeroed base, preserving a conflict
    /// copy first when the local version does not precede the remote one.
    Fetch { delta: bool, base_local: bool, conflict: bool },
}

/// The decision for a remote version strictly newer than the local one:
/// fast-forward when the remote history contains the local version, else
/// treat as a conflict and take the remote content wholesale.
pub open spec fn spec_plan_remote_is_latest(l: FileV, remote: FileV) -> PlanV {
    if spec_history_has(remote.previous_details, l.detail.gen, l.detail.hash_sum) {
        if remote.detail.deleted {
            PlanV::ApplyDeleted { conflict: false }
        } else {
            PlanV::Fetch { delta: l.detail.block_chain is Some, base_local: true, conflict: false }
        }
    } else {
        if remote.detail.deleted {
            PlanV::ApplyDeleted { conflict: true }
        } else {
            PlanV::Fetch { delta: false, base_local: false, conflict: true }
        }
    }
}

/// The decision for equal generations: equal records or an older remote
/// timestamp change nothing; a newer remote timestamp wins, preserving a
/// conflict copy when the local version was live; equal timestamps with
/// different content cannot be resolved and are ignored.
pub open spec fn spec_plan_gen_eq(l: FileV, remote: FileV) -> PlanV {
    if l == remote {
        PlanV::Ignore
    } else if remote.update_time < l.update_time {
        PlanV::Ignore
    } else if remote.update_time > l.update_time {
        if remote.detail.deleted {
            PlanV::ApplyDeleted { conflict: false }
        } else {
            PlanV::Fetch { delta: false, base_local: false, conflict: !l.detail.deleted }
        }
    } else {
        PlanV::Ignore
    }
}

/// The decision for one rumor against the local index: unknown names are
/// adopted outright, newer remote generations fast-forward or conflict, equal
/// generations go by timestamp, and older remote generations are ignored.
pub open spec fn spec_plan(s: Seq<FileV>, remote: FileV) -> PlanV {
    match lookup(s, remote.filename) {
        Option::None => if remote.detail.deleted {
            PlanV::ApplyDeleted { conflict: false }
        } else {
            PlanV::Fetch { delta: false, base_local: false, conflict: false }
        },
        Option::Some(l) => if l.detail.gen < remote.detail.gen {
            spec_plan_remote_is_latest(l, remote)
        } else if l.detail.gen == remote.detail.gen {
            spec_plan_gen_eq(l, remote)
        } else {
            PlanV::Ignore
        },
    }
}

/// The base content a fetch overlays blocks onto: the local bytes resized to
/// the remote size on a fast-forward, else a zeroed buffer of that size.
pub open spec fn spec_fetch_base(
    dseq: Seq<EntryV>,
    name: Seq<char>,
    base_local: bool,
    size: int,
) -> Seq<u8> {
    if base_local {
        let d = key_map(dseq, by_name());
        if d.dom().contains(name) {
            resize_content(d[name].content, size)
        } else {
            resize_content(Seq::empty(), size)
        }
    } else {
        resize_content(Seq::empty(), size)
    }
}

/// Index, directory and the "changed local state" verdict after one rumor.
/// A missing block cancels the fetch and leaves everything unchanged.
pub open spec fn spec_apply_rumor(
    s: Seq<FileV>,
    dseq: Seq<EntryV>,
    remote: FileV,
    blocks: Seq<Option<DownloadBlockV>>,
    now: u64,
) -> (Seq<FileV>, Seq<EntryV>, bool) {
    match spec_plan(s, remote) {
        PlanV::Ignore => (s, dseq, false),
        PlanV::ApplyDeleted { conflict } => {
            let d1 = if conflict {
                spec_dir_after_conflict(dseq, remote.filename, now)
            } else {
                dseq
            };
            (
                upsert_seq(s, by_filename(), remote),
                remove_seq(d1, by_name(), remote.filename),
                true,
            )
        },
        PlanV::Fetch { delta, base_local, conflict } => {
            if any_missing(blocks) {
                (s, dseq, false)
            } else {
                let size = chain_size(remote.detail.block_chain->0.blocks);
                let base = spec_fetch_base(dseq, remote.filename, base_local, size);
                let content = overlay_blocks(base, delivered_blocks(blocks));
                let d1 = if conflict {
                    spec_dir_after_conflict(dseq, remote.filename, now)
                } else {
                    dseq
                };
                (
                    upsert_seq(s, by_filename(), remote),
                    upsert_seq(d1, by_name(), EntryV { name: remote.filename, content }),
                    true,
                )
            }
        },
    }
}

/// What must be done for one rumor, with the block requests already built.
pub enum RumorAction {
    /// The rumor is old, already applied, or loses the tie: nothing to do.
    Ignore,
    /// Adopt the remote deletion: update the index and remove the file,
    /// preserving a conflict copy first when asked.
    ApplyDeleted { conflict: bool },
    /// Download the requested blocks, overlay them (onto the local bytes when
    /// `base_local`, else onto zeroes), preserving a conflict copy first when
    /// asked, and install index entry and content.
    Fetch { requests: Vec<DownloadBlockRequest>, base_local: bool, conflict: bool },
}

/// Handles a batch of remote rumors for one peer and directory.
pub struct RumorsEventHandler {
    pub user_id: String,
    pub dir_id: String,
}

impl RumorsEventHandler {
    /// A handler acting as the given peer on the given share.
    pub fn new(user_id: String, dir_id: String) -> (r: Self)
        ensures
            r.user_id == user_id,
            r.dir_id == dir_id,
    {
        RumorsEventHandler { user_id, dir_id }
    }

    /// Decide what one rumor asks of the local peer, and build the block
    /// requests a fetch needs.
    pub fn plan_rumor(&self, index_guard: &IndexGuard, remote_index_file: &IndexFile) -> (r:
        RumorAction)
        requires
            index_guard.inv(),
            index_file_wf(remote_index_file@),
        ensures
            ({
                let p = spec_plan(index_guard@, remote_index_file@);
                match r {
                    RumorAction::Ignore => p == PlanV::Ignore,
                    RumorAction::ApplyDeleted { conflict } => p == (PlanV::ApplyDeleted {
                        conflict,
                    }),
                    RumorAction::Fetch { requests, base_local, conflict } => {
                        &&& (p matches PlanV::Fetch {
                            delta,
                            base_local: pbl,
                            conflict: pcf,
                        } && pbl == base_local && pcf == conflict && requests@.map_values(
                            |q: DownloadBlockRequest| q@,
                        ) == if delta {
                            spec_delta_requests(
                                self.dir_id@,
                                remote_index_file@.filename,
                                remote_index_file@.detail.block_chain->0.blocks,
                                lookup(
                                    index_guard@,
                                    remote_index_file@.filename,
                                )->0.detail.block_chain->0.blocks,
                            )
                        } else {
                            spec_all_requests(
                                self.dir_id@,
                                remote_index_file@.filename,
                                remote_index_file@.detail.block_chain->0.blocks,
                            )
                        })
                    },
                }
            }),
    {
        let name = &remote_index_file.filename;
        match index_guard.get_file(name) {
            Option::None => {
                if remote_index_file.detail.deleted {
                    RumorAction::ApplyDeleted { conflict: false }
                } else {
                    let chain = match &remote_index_file.detail.block_chain {
                        Option::Some(c) => c,
                        Option::None => {
                            proof {
                                assert(false);
                            }
                            unreached()
                        }
                    };
                    let requests = blocks_to_download_block_requests(
                        &self.dir_id,
                        name,
                        &chain.blocks,
                    );
                    RumorAction::Fetch { requests, base_local: false, conflict: false }
                }
            }
            Option::Some(local) => {
                if local.detail.gen < remote_index_file.detail.gen {
                    let fast_forward = history_contains(
                        &remote_index_file.previous_details,
                        local.detail.gen,
                        &local.detail.hash_sum,
                    );
                    proof {
                        assert(local@.previous_details == local@.previous_details);
                    }
                    if fast_forward {
                        if remote_index_file.detail.deleted {
                            RumorAction::ApplyDeleted { conflict: false }
                        } else {
                            let chain = match &remote_index_file.detail.block_chain {
                                Option::Some(c) => c,
                                Option::None => {
                                    proof {
                                        assert(false);
                                    }
                                    unreached()
                                }
                            };
                            match &local.detail.block_chain {
                                Option::Some(local_chain) => {
                                    let requests = compare_blocks(
                                        &self.dir_id,
                                        name,
                                        &chain.blocks,
                                        &local_chain.blocks,
                                    );
                                    RumorAction::Fetch {
                                        requests,
                                        base_local: true,
                                        conflict: false,
                                    }
                                }
                                Option::None => {
                                    let requests = blocks_to_download_block_requests(
                                        &self.dir_id,
                                        name,
                                        &chain.blocks,
                                    );
                                    RumorAction::Fetch {
                                        requests,
                                        base_local: true,
                                        conflict: false,
                                    }
                                }
                            }
                        }
                    } else {
                        if remote_index_file.detail.deleted {
                            RumorAction::ApplyDeleted { conflict: true }
                        } else {
                            let chain = match &remote_index_file.detail.block_chain {
                                Option::Some(c) => c,
                                Option::None => {
                                    proof {
                                        assert(false);
                                    }
                                    unreached()
                                }
                            };
                            let requests = blocks_to_download_block_requests(
                                &self.dir_id,
                                name,
                                &chain.blocks,
                            );
                            RumorAction::Fetch { requests, base_local: false, conflict: true }
                        }
                    }
                } else if local.detail.gen == remote_index_file.detail.gen {
                    if index_files_equal(&local, remote_index_file) {
                        RumorAction::Ignore
                    } else if remote_index_file.update_time < local.update_time {
                        RumorAction::Ignore
                    } else if remote_index_file.update_time > local.update_time {
                        if remote_index_file.detail.deleted {
                            RumorAction::ApplyDeleted { conflict: false }
                        } else {
                            let chain = match &remote_index_file.detail.block_chain {
                                Option::Some(c) => c,
                                Option::None => {
                                    proof {
                                        assert(false);
                                    }
                                    unreached()
                                }
                            };
                            let requests = blocks_to_download_block_requests(
                                &self.dir_id,
                                name,
                                &chain.blocks,
                            );
                            RumorAction::Fetch {
                                requests,
                                base_local: false,
                                conflict: !local.detail.deleted,
                            }
                        }
                    } else {
                        RumorAction::Ignore
                    }
                } else {
                    RumorAction::Ignore
                }
            }
        }
    }

    /// Apply one rumor end to end, the download responses given: decide, keep
    /// a conflict copy where owed, overlay the blocks, and install index entry
    /// and content. Returns whether local state changed; a missing block
    /// cancels the file and changes nothing.
    pub fn apply_rumor(
        &self,
        index_guard: &mut IndexGuard,
        dir: &mut SyncDir,
        remote_index_file: &IndexFile,
        blocks: &Vec<Option<DownloadBlock>>,
        now: u64,
    ) -> (new: bool)
        requires
            old(index_guard).inv(),
            old(dir).inv(),
            index_file_wf(remote_index_file@),
            forall|i: int|
                0 <= i < blocks@.len() ==> ((#[trigger] blocks@[i]) is Some
                    ==> blocks@[i]->0.offset + blocks@[i]->0.data@.len() <= usize::MAX),
            remote_index_file@.detail.block_chain is Some ==> chain_size(
                remote_index_file@.detail.block_chain->0.blocks,
            ) <= usize::MAX,
        ensures
            final(index_guard).inv(),
            final(dir).inv(),
            ({
                let res = spec_apply_rumor(
                    old(index_guard)@,
                    old(dir)@,
                    remote_index_file@,
                    block_views(blocks@),
                    now,
                );
                &&& final(index_guard)@ == res.0
                &&& final(dir)@ == res.1
                &&& new == res.2
            }),
    {
        let plan = self.plan_rumor(index_guard, remote_index_file);
        let name = &remote_index_file.filename;
        match plan {
            RumorAction::Ignore => false,
            RumorAction::ApplyDeleted { conflict } => {
                if conflict {
                    create_conflict_file_from(dir, name, now);
                }
                index_guard.update_file(remote_index_file);
                dir.remove(name);
                true
            }
            RumorAction::Fetch { requests: _, base_local, conflict } => {
                let chain = match &remote_index_file.detail.block_chain {
                    Option::Some(c) => c,
                    Option::None => {
                        proof {
                            assert(false);
                        }
                        unreached()
                    }
                };
                let size = chain_file_size(&chain.blocks);
                let base = if base_local {
                    match dir.read(name) {
                        Option::Some(content) => resize_to(content, size),
                        Option::None => resize_to(Vec::new(), size),
                    }
                } else {
                    resize_to(Vec::new(), size)
                };
                proof {
                    assert(base@ == spec_fetch_base(old(dir)@, name@, base_local, size as int));
                }
                match sync_file(base, blocks) {
                    Option::None => false,
                    Option::Some(content) => {
                        if conflict {
                            create_conflict_file_from(dir, name, now);
                        }
                        index_guard.update_file(remote_index_file);
                        dir.write(name, content);
                        true
                    }
                }
            }
        }
    }

    /// Handle one rumor in a transaction of its own.
    pub fn handle_rumor(
        &self,
        index: &mut IndexStore,
        dir: &mut SyncDir,
        remote_index_file: &IndexFile,
        blocks: &Vec<Option<DownloadBlock>>,
        now: u64,
    ) -> (new: bool)
        requires
            old(index).inv(),
            old(dir).inv(),
            index_file_wf(remote_index_file@),
            forall|i: int|
                0 <= i < blocks@.len() ==> ((#[trigger] blocks@[i]) is Some
                    ==> blocks@[i]->0.offset + blocks@[i]->0.data@.len() <= usize::MAX),
            remote_index_file@.detail.block_chain is Some ==> chain_size(
                remote_index_file@.detail.block_chain->0.blocks,
            ) <= usize::MAX,
        ensures
            final(index).inv(),
            final(dir).inv(),
            ({
                let res = spec_apply_rumor(
                    old(index)@,
                    old(dir)@,
                    remote_index_file@,
                    block_views(blocks@),
                    now,
                );
                &&& final(index)@ == res.0
                &&& final(dir)@ == res.1
                &&& new == res.2
            }),
    {
        let mut index_guard = index.begin();
        let new = self.apply_rumor(&mut index_guard, dir, remote_index_file, blocks, now);
        index.commit(index_guard);
        new
    }

    /// Wrap the rumors that changed local state for broadcast to every peer
    /// but the sender.
    pub fn send_rumors_to_others(&self, sender_id: &String, rumors: Vec<IndexFile>) -> (r:
        SendRumors)
        ensures
            r@.dir_id == self.dir_id@,
            r@.rumors == rumors@.map_values(|f: IndexFile| f@),
            r@.except == Option::Some(sender_id@),
    {
        SendRumors {
            dir_id: self.dir_id.clone(),
            rumors,
            except: Option::Some(sender_id.clone()),
        }
    }

    /// Handle a batch of rumors, each in a transaction of its own, and
    /// re-broadcast those that changed local state to every peer but the
    /// sender (nothing when none did). `downloads[i]` holds the block
    /// responses for `rumors[i]`; it is read only when that rumor needs a
    /// fetch.
    pub fn handle_rumors_event(
        &self,
        index: &mut IndexStore,
        dir: &mut SyncDir,
        sender_id: &String,
        rumors: &Vec<IndexFile>,
        downloads: &Vec<Vec<Option<DownloadBlock>>>,
        now: u64,
    ) -> (r: Option<SendRumors>)
        requires
            old(index).inv(),
            old(dir).inv(),
            downloads@.len() == rumors@.len(),
            forall|i: int| 0 <= i < rumors@.len() ==> index_file_wf((#[trigger] rumors@[i])@),
            forall|i: int|
                0 <= i < rumors@.len() ==> ((#[trigger] rumors@[i])@.detail.block_chain is Some
                    ==> chain_size(rumors@[i]@.detail.block_chain->0.blocks) <= usize::MAX),
            forall|i: int, j: int|
                0 <= i < downloads@.len() && 0 <= j < downloads@[i]@.len() ==> ((
                #[trigger] downloads@[i]@[j]) is Some ==> downloads@[i]@[j]->0.offset
                    + downloads@[i]@[j]->0.data@.len() <= usize::MAX),
        ensures
            final(index).inv(),
            final(dir).inv(),
            ({
                let res = spec_handle_rumors(
                    old(index)@,
                    old(dir)@,
                    rumors@.map_values(|f: IndexFile| f@),
                    downloads@.map_values(|v: Vec<Option<DownloadBlock>>| block_views(v@)),
                    now,
                );
                &&& final(index)@ == res.0
                &&& final(dir)@ == res.1
                &&& match r {
                    Option::None => res.2.len() == 0,
                    Option::Some(sr) => res.2.len() > 0 && sr@.rumors == res.2
                        && sr@.except == Option::Some(sender_id@) && sr@.dir_id == self.dir_id@,
                }
            }),
    {
        let ghost s0 = index@;
        let ghost d0 = dir@;
        let ghost rv = rumors@.map_values(|f: IndexFile| f@);
        let ghost dv = downloads@.map_values(|v: Vec<Option<DownloadBlock>>| block_views(v@));
        let n = rumors.len();
        let mut new_rumors: Vec<IndexFile> = Vec::new();
        let mut i: usize = 0;
        while i < n
            invariant
                n == rumors@.len(),
                n == downloads@.len(),
                i <= n,
                index.inv(),
                dir.inv(),
                rv == rumors@.map_values(|f: IndexFile| f@),
                dv == downloads@.map_values(|v: Vec<Option<DownloadBlock>>| block_views(v@)),
                forall|k: int| 0 <= k < n ==> index_file_wf((#[trigger] rumors@[k])@),
                forall|k: int|
                    0 <= k < n ==> ((#[trigger] rumors@[k])@.detail.block_chain is Some
                        ==> chain_size(rumors@[k]@.detail.block_chain->0.blocks) <= usize::MAX),
                forall|k: int, j: int|
                    0 <= k < n && 0 <= j < downloads@[k]@.len() ==> ((
                    #[trigger] downloads@[k]@[j]) is Some ==> downloads@[k]@[j]->0.offset
                        + downloads@[k]@[j]->0.data@.len() <= usize::MAX),
                index@ == spec_handle_rumors(s0, d0, rv.subrange(0, i as int), dv.subrange(0, i as int), now).0,
                dir@ == spec_handle_rumors(s0, d0, rv.subrange(0, i as int), dv.subrange(0, i as int), now).1,
                new_rumors@.map_values(|f: IndexFile| f@) == spec_handle_rumors(
                    s0,
                    d0,
                    rv.subrange(0, i as int),
                    dv.subrange(0, i as int),
                    now,
                ).2,
            decreases n - i,
        {
            let ghost pre_rumors = new_rumors@.map_values(|f: IndexFile| f@);
            proof {
                assert(rv[i as int] == rumors@[i as int]@);
                assert(dv[i as int] == block_views(downloads@[i as int]@));
            }
            let new = self.handle_rumor(index, dir, &rumors[i], &downloads[i], now);
            if new {
                new_rumors.push(rumors[i].clone());
                proof {
                    assert(new_rumors@.map_values(|f: IndexFile| f@) =~= pre_rumors.push(
                        rv[i as int],
                    ));
                }
            }
            proof {
                assert(rv.subrange(0, i + 1 as int).drop_last() =~= rv.subrange(0, i as int));
                assert(rv.subrange(0, i + 1 as int).last() == rv[i as int]);
                assert(dv.subrange(0, i + 1 as int).drop_last() =~= dv.subrange(0, i as int));
                assert(dv.subrange(0, i + 1 as int).last() == dv[i as int]);
            }
            i = i + 1;
        }
        proof {
            assert(rv.subrange(0, n as int) =~= rv);
            assert(dv.subrange(0, n as int) =~= dv);
        }
        if new_rumors.len() == 0 {
            Option::None
        } else {
            Option::Some(self.send_rumors_to_others(sender_id, new_rumors))
        }
    }
}

/// Index, directory and the rumors that changed local state, after a batch of
/// rumors is applied in order, each with its own download responses.
pub open spec fn spec_handle_rumors(
    s: Seq<FileV>,
    dseq: Seq<EntryV>,
    rumors: Seq<FileV>,
    downloads: Seq<Seq<Option<DownloadBlockV>>>,
    now: u64,
) -> (Seq<FileV>, Seq<EntryV>, Seq<FileV>)
    decreases rumors.len(),
{
    if rumors.len() == 0 {
        (s, dseq, Seq::empty())
    } else {
        let prev = spec_handle_rumors(s, dseq, rumors.drop_last(), downloads.drop_last(), now);
        let step = spec_apply_rumor(prev.0, prev.1, rumors.last(), downloads.last(), now);
        (step.0, step.1, if step.2 {
            prev.2.push(rumors.last())
        } else {
            prev.2
        })
    }
}

} // verus!

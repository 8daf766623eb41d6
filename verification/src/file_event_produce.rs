//! Turning the watcher's raw filesystem notifications into watch events.
//! Rename halves arrive as separate notifications; they are parked, paired
//! where possible, and composed into whole events after the batch.

use vstd::prelude::*;

use crate::events::{WatchEvent, WatchEventV};
use crate::keyed::{
    keys_unique, lemma_remove_seq_absent, lemma_remove_seq_at, lemma_remove_seq_map,
    lemma_upsert_seq_map, lemma_upsert_seq_push, lemma_upsert_seq_update, remove_seq, upsert_seq,
};

verus! {

/// How a raw rename notification relates its paths.
#[derive(Clone, Copy, PartialEq, Eq, Structural, Debug)]
pub enum RawRenameMode {
    Any,
    To,
    From,
    Both,
    Other,
}

/// What kind of entry a raw creation notification concerns.
#[derive(Clone, Copy, PartialEq, Eq, Structural, Debug)]
pub enum RawCreateKind {
    Any,
    File,
    Folder,
    Other,
}

/// What a raw modification notification changed.
#[derive(Clone, Copy, PartialEq, Eq, Structural, Debug)]
pub enum RawModifyKind {
    Any,
    Data,
    Metadata,
    Name(RawRenameMode),
    Other,
}

/// What kind of entry a raw removal notification concerns.
#[derive(Clone, Copy, PartialEq, Eq, Structural, Debug)]
pub enum RawRemoveKind {
    Any,
    File,
    Folder,
    Other,
}

/// The kind of a raw watcher notification.
#[derive(Clone, Copy, PartialEq, Eq, Structural, Debug)]
pub enum RawEventKind {
    Any,
    Access,
    Create(RawCreateKind),
    Modify(RawModifyKind),
    Remove(RawRemoveKind),
    Other,
}

/// One raw watcher notification: its kind and the paths it concerns.
pub struct RawEvent {
    pub kind: RawEventKind,
    pub paths: Vec<String>,
}

/// Mathematical model of a [`RawEvent`].
pub struct RawEventV {
    pub kind: RawEventKind,
    pub paths: Seq<Seq<char>>,
}

impl View for RawEvent {
    type V = RawEventV;

    open spec fn view(&self) -> RawEventV {
        RawEventV { kind: self.kind, paths: self.paths@.map_values(|p: String| p@) }
    }
}

impl Clone for RawEvent {
    fn clone(&self) -> (res: Self)
        ensures
            res@ == self@,
    {
        let n = self.paths.len();
        let mut paths: Vec<String> = Vec::new();
        let mut i: usize = 0;
        while i < n
            invariant
                n == self.paths@.len(),
                i <= n,
                paths@.len() == i,
                forall|j: int| 0 <= j < i ==> (#[trigger] paths@[j])@ == self.paths@[j]@,
            decreases n - i,
        {
            paths.push(self.paths[i].clone());
            i = i + 1;
        }
        let res = RawEvent { kind: self.kind, paths };
        proof {
            assert(res@.paths =~= self@.paths);
        }
        res
    }
}

/// The key a parked rename is filed under: its first path.
pub open spec fn by_first_path() -> spec_fn(RawEventV) -> Seq<char> {
    |e: RawEventV| e.paths[0]
}

/// A parked rename half (or pair) is a Name notification with the paths its
/// mode requires.
pub open spec fn pending_wf(e: RawEventV) -> bool {
    &&& e.kind matches RawEventKind::Modify(RawModifyKind::Name(m)) && (m == RawRenameMode::To
        || m == RawRenameMode::From || m == RawRenameMode::Both) && (m == RawRenameMode::Both
        ==> e.paths.len() == 2)
    &&& e.paths.len() >= 1
}

/// The watch events a non-rename notification translates to, or nothing for
/// notifications that are ignored or parked.
pub open spec fn spec_direct_events(e: RawEventV) -> Seq<WatchEventV> {
    match e.kind {
        RawEventKind::Any => e.paths.map_values(|p: Seq<char>| WatchEventV::Modify { name: p }),
        RawEventKind::Other => e.paths.map_values(|p: Seq<char>| WatchEventV::Modify { name: p }),
        RawEventKind::Access => Seq::empty(),
        RawEventKind::Create(kind) => if kind == RawCreateKind::Folder {
            Seq::empty()
        } else {
            e.paths.map_values(|p: Seq<char>| WatchEventV::Add { name: p })
        },
        RawEventKind::Modify(kind) => match kind {
            RawModifyKind::Name(_) => Seq::empty(),
            _ => e.paths.map_values(|p: Seq<char>| WatchEventV::Modify { name: p }),
        },
        RawEventKind::Remove(kind) => if kind == RawRemoveKind::Folder {
            Seq::empty()
        } else {
            e.paths.map_values(|p: Seq<char>| WatchEventV::Delete { name: p })
        },
    }
}

/// The parked renames after one notification is taken in.
pub open spec fn spec_collect_pending(pending: Seq<RawEventV>, e: RawEventV) -> Seq<RawEventV> {
    match e.kind {
        RawEventKind::Modify(RawModifyKind::Name(mode)) => match mode {
            RawRenameMode::Any => pending,
            RawRenameMode::Other => pending,
            RawRenameMode::To => if e.paths.len() == 0 {
                pending
            } else {
                upsert_seq(pending, by_first_path(), e)
            },
            RawRenameMode::From => if e.paths.len() == 0 {
                pending
            } else {
                upsert_seq(pending, by_first_path(), e)
            },
            RawRenameMode::Both => if e.paths.len() != 2 {
                pending
            } else {
                upsert_seq(
                    remove_seq(
                        remove_seq(pending, by_first_path(), e.paths[0]),
                        by_first_path(),
                        e.paths[1],
                    ),
                    by_first_path(),
                    e,
                )
            },
        },
        _ => pending,
    }
}

/// The whole watch event one parked rename composes to.
pub open spec fn spec_composed_event(e: RawEventV) -> WatchEventV {
    match e.kind {
        RawEventKind::Modify(RawModifyKind::Name(mode)) => match mode {
            RawRenameMode::To => WatchEventV::Add { name: e.paths[0] },
            RawRenameMode::From => WatchEventV::Delete { name: e.paths[0] },
            _ => WatchEventV::Rename { old_name: e.paths[0], new_name: e.paths[1] },
        },
        _ => WatchEventV::Modify { name: e.paths[0] },
    }
}

/// The watch events a batch of parked renames composes to, in park order.
pub open spec fn spec_composed_events(pending: Seq<RawEventV>) -> Seq<WatchEventV> {
    pending.map_values(|e: RawEventV| spec_composed_event(e))
}

/// State and emitted events after a whole batch of notifications: directly
/// translated events in arrival order, then the composed renames.
pub open spec fn spec_handle_events(events: Seq<RawEventV>) -> Seq<WatchEventV>
    decreases events.len(),
{
    spec_direct_of_batch(events) + spec_composed_events(spec_pending_of_batch(events))
}

/// The directly translated events of a batch, in order.
pub open spec fn spec_direct_of_batch(events: Seq<RawEventV>) -> Seq<WatchEventV>
    decreases events.len(),
{
    if events.len() == 0 {
        Seq::empty()
    } else {
        spec_direct_of_batch(events.drop_last()) + spec_direct_events(events.last())
    }
}

/// The parked renames left after a batch.
pub open spec fn spec_pending_of_batch(events: Seq<RawEventV>) -> Seq<RawEventV>
    decreases events.len(),
{
    if events.len() == 0 {
        Seq::empty()
    } else {
        spec_collect_pending(spec_pending_of_batch(events.drop_last()), events.last())
    }
}

/// The renames parked while a batch of notifications is translated.
pub struct PendingRenames {
    events: Vec<RawEvent>,
}

impl View for PendingRenames {
    type V = Seq<RawEventV>;

    closed spec fn view(&self) -> Seq<RawEventV> {
        self.events@.map_values(|e: RawEvent| e@)
    }
}

impl PendingRenames {
    /// Parked renames are filed under distinct first paths and each is a
    /// well-formed rename half or pair.
    pub open spec fn inv(&self) -> bool {
        &&& keys_unique(self@, by_first_path())
        &&& forall|i: int| 0 <= i < self@.len() ==> pending_wf(#[trigger] self@[i])
    }

    /// No renames parked yet.
    pub fn new() -> (r: Self)
        ensures
            r@ == Seq::<RawEventV>::empty(),
            r.inv(),
    {
        let r = PendingRenames { events: Vec::new() };
        proof {
            assert(r@ =~= Seq::<RawEventV>::empty());
        }
        r
    }

    /// Park a rename half or pair under its first path, replacing any parked
    /// rename already filed there.
    fn insert(&mut self, event: RawEvent)
        requires
            old(self).inv(),
            pending_wf(event@),
        ensures
            final(self).inv(),
            final(self)@ == upsert_seq(old(self)@, by_first_path(), event@),
    {
        proof {
            lemma_upsert_seq_map(self@, by_first_path(), event@);
        }
        match self.find_wf(&event) {
            Option::Some(i) => {
                let ghost ev = event@;
                self.events.set(i, event);
                proof {
                    assert(self@ =~= old(self)@.update(i as int, ev));
                    lemma_upsert_seq_update(old(self)@, by_first_path(), ev, i as int);
                }
            }
            Option::None => {
                let ghost ev = event@;
                self.events.push(event);
                proof {
                    assert(self@ =~= old(self)@.push(ev));
                    lemma_upsert_seq_push(old(self)@, by_first_path(), ev);
                }
            }
        }
    }

    /// Find the parked rename filed under the first path of `event`.
    fn find_wf(&self, event: &RawEvent) -> (r: Option<usize>)
        requires
            self.inv(),
            pending_wf(event@),
        ensures
            match r {
                Option::Some(i) => i < self@.len() && (by_first_path())(self@[i as int])
                    == (by_first_path())(event@),
                Option::None => forall|i: int|
                    0 <= i < self@.len() ==> (by_first_path())(#[trigger] self@[i])
                        != (by_first_path())(event@),
            },
    {
        let n = self.events.len();
        let mut i: usize = 0;
        while i < n
            invariant
                self.inv(),
                pending_wf(event@),
                n == self.events.len(),
                i <= n,
                forall|j: int|
                    0 <= j < i ==> (by_first_path())(#[trigger] self@[j]) != (by_first_path())(
                        event@,
                    ),
            decreases n - i,
        {
            proof {
                assert(pending_wf(self@[i as int]));
            }
            if self.events[i].paths[0] == event.paths[0] {
                proof {
                    assert((by_first_path())(self@[i as int]) == (by_first_path())(event@));
                }
                return Option::Some(i);
            }
            proof {
                assert((by_first_path())(self@[i as int]) == self@[i as int].paths[0]);
                assert((by_first_path())(event@) == event@.paths[0]);
            }
            i = i + 1;
        }
        Option::None
    }

    /// Drop the parked rename filed under this path, if any.
    fn remove(&mut self, path: &String)
        requires
            old(self).inv(),
        ensures
            final(self).inv(),
            final(self)@ == remove_seq(old(self)@, by_first_path(), path@),
    {
        proof {
            lemma_remove_seq_map(self@, by_first_path(), path@);
        }
        let n = self.events.len();
        let mut i: usize = 0;
        while i < n
            invariant
                self.inv(),
                self@ == old(self)@,
                n == self.events.len(),
                i <= n,
                forall|j: int|
                    0 <= j < i ==> (by_first_path())(#[trigger] self@[j]) != path@,
            decreases n - i,
        {
            proof {
                assert(pending_wf(self@[i as int]));
                assert((by_first_path())(self@[i as int]) == self@[i as int].paths[0]);
            }
            if self.events[i].paths[0] == *path {
                self.events.remove(i);
                proof {
                    assert(self@ =~= old(self)@.remove(i as int));
                    lemma_remove_seq_at(old(self)@, by_first_path(), path@, i as int);
                }
                return ;
            }
            i = i + 1;
        }
        proof {
            lemma_remove_seq_absent(self@, by_first_path(), path@);
        }
    }

    /// The parked renames, in park order.
    fn take_events(self) -> (r: Vec<RawEvent>)
        ensures
            r@.map_values(|e: RawEvent| e@) == self@,
    {
        self.events
    }
}

/// Translate one raw notification: emit the watch events it stands for
/// directly, and park rename halves and pairs for composition.
pub fn create_watch_events(rename_events: &mut PendingRenames, event: RawEvent) -> (r: Option<
    Vec<WatchEvent>,
>)
    requires
        old(rename_events).inv(),
    ensures
        final(rename_events).inv(),
        final(rename_events)@ == spec_collect_pending(old(rename_events)@, event@),
        ({
            let direct = spec_direct_events(event@);
            match r {
                Option::None => direct.len() == 0,
                Option::Some(v) => v@.map_values(|e: WatchEvent| e@) == direct,
            }
        }),
{
    match event.kind {
        RawEventKind::Access => Option::None,
        RawEventKind::Any => Option::Some(paths_to_events(event, 0)),
        RawEventKind::Other => Option::Some(paths_to_events(event, 0)),
        RawEventKind::Create(kind) => match kind {
            RawCreateKind::Folder => Option::None,
            _ => Option::Some(paths_to_events(event, 1)),
        },
        RawEventKind::Remove(kind) => match kind {
            RawRemoveKind::Folder => Option::None,
            _ => Option::Some(paths_to_events(event, 2)),
        },
        RawEventKind::Modify(kind) => match kind {
            RawModifyKind::Name(mode) => {
                match mode {
                    RawRenameMode::Any => Option::None,
                    RawRenameMode::Other => Option::None,
                    RawRenameMode::To => {
                        if event.paths.len() == 0 {
                            Option::None
                        } else {
                            rename_events.insert(event);
                            Option::None
                        }
                    }
                    RawRenameMode::From => {
                        if event.paths.len() == 0 {
                            Option::None
                        } else {
                            rename_events.insert(event);
                            Option::None
                        }
                    }
                    RawRenameMode::Both => {
                        if event.paths.len() != 2 {
                            Option::None
                        } else {
                            rename_events.remove(&event.paths[0]);
                            rename_events.remove(&event.paths[1]);
                            rename_events.insert(event);
                            Option::None
                        }
                    }
                }
            }
            _ => Option::Some(paths_to_events(event, 0)),
        },
    }
}

/// Turn each path of the notification into one watch event of the chosen
/// shape: 0 for Modify, 1 for Add, 2 for Delete.
fn paths_to_events(event: RawEvent, shape: u8) -> (r: Vec<WatchEvent>)
    ensures
        shape == 0 ==> r@.map_values(|e: WatchEvent| e@) == event@.paths.map_values(
            |p: Seq<char>| WatchEventV::Modify { name: p },
        ),
        shape == 1 ==> r@.map_values(|e: WatchEvent| e@) == event@.paths.map_values(
            |p: Seq<char>| WatchEventV::Add { name: p },
        ),
        shape != 0 && shape != 1 ==> r@.map_values(|e: WatchEvent| e@) == event@.paths.map_values(
            |p: Seq<char>| WatchEventV::Delete { name: p },
        ),
{
    let n = event.paths.len();
    let mut r: Vec<WatchEvent> = Vec::new();
    let mut i: usize = 0;
    while i < n
        invariant
            n == event.paths@.len(),
            i <= n,
            r@.len() == i,
            forall|j: int|
                0 <= j < i ==> (#[trigger] r@[j])@ == (if shape == 0 {
                    WatchEventV::Modify { name: event@.paths[j] }
                } else if shape == 1 {
                    WatchEventV::Add { name: event@.paths[j] }
                } else {
                    WatchEventV::Delete { name: event@.paths[j] }
                }),
        decreases n - i,
    {
        let name = event.paths[i].clone();
        if shape == 0 {
            r.push(WatchEvent::Modify { name });
        } else if shape == 1 {
            r.push(WatchEvent::Add { name });
        } else {
            r.push(WatchEvent::Delete { name });
        }
        i = i + 1;
    }
    proof {
        if shape == 0 {
            assert(r@.map_values(|e: WatchEvent| e@) =~= event@.paths.map_values(
                |p: Seq<char>| WatchEventV::Modify { name: p },
            ));
        } else if shape == 1 {
            assert(r@.map_values(|e: WatchEvent| e@) =~= event@.paths.map_values(
                |p: Seq<char>| WatchEventV::Add { name: p },
            ));
        } else {
            assert(r@.map_values(|e: WatchEvent| e@) =~= event@.paths.map_values(
                |p: Seq<char>| WatchEventV::Delete { name: p },
            ));
        }
    }
    r
}

/// Compose the parked renames into whole watch events, in park order.
pub fn compose_rename_events(rename_events: PendingRenames, all_watch_events: &mut Vec<WatchEvent>)
    requires
        rename_events.inv(),
    ensures
        final(all_watch_events)@.map_values(|e: WatchEvent| e@) == old(all_watch_events)@.map_values(
            |e: WatchEvent| e@,
        ) + spec_composed_events(rename_events@),
{
    let ghost pv = rename_events@;
    let events = rename_events.take_events();
    let n = events.len();
    let mut i: usize = 0;
    while i < n
        invariant
            n == events@.len(),
            events@.map_values(|e: RawEvent| e@) == pv,
            forall|k: int| 0 <= k < pv.len() ==> pending_wf(#[trigger] pv[k]),
            i <= n,
            all_watch_events@.map_values(|e: WatchEvent| e@) == old(all_watch_events)@.map_values(
                |e: WatchEvent| e@,
            ) + spec_composed_events(pv.subrange(0, i as int)),
        decreases n - i,
    {
        let ghost pre = all_watch_events@.map_values(|e: WatchEvent| e@);
        proof {
            assert(events@[i as int]@ == pv[i as int]);
            assert(pending_wf(pv[i as int]));
        }
        let ev = &events[i];
        match ev.kind {
            RawEventKind::Modify(RawModifyKind::Name(RawRenameMode::To)) => {
                all_watch_events.push(WatchEvent::Add { name: ev.paths[0].clone() });
            }
            RawEventKind::Modify(RawModifyKind::Name(RawRenameMode::From)) => {
                all_watch_events.push(WatchEvent::Delete { name: ev.paths[0].clone() });
            }
            RawEventKind::Modify(RawModifyKind::Name(RawRenameMode::Both)) => {
                all_watch_events.push(WatchEvent::Rename {
                    old_name: ev.paths[0].clone(),
                    new_name: ev.paths[1].clone(),
                });
            }
            _ => {
                proof {
                    assert(false);
                }
            }
        }
        proof {
            assert(pv.subrange(0, i + 1 as int).drop_last() =~= pv.subrange(0, i as int));
            assert(pv.subrange(0, i + 1 as int).last() == pv[i as int]);
            assert(spec_composed_events(pv.subrange(0, i + 1 as int)) =~= spec_composed_events(
                pv.subrange(0, i as int),
            ).push(spec_composed_event(pv[i as int])));
            assert(all_watch_events@.map_values(|e: WatchEvent| e@) =~= pre.push(
                spec_composed_event(pv[i as int]),
            ));
        }
        i = i + 1;
    }
    proof {
        assert(pv.subrange(0, n as int) =~= pv);
    }
}

/// Translate a whole batch of raw notifications into the watch events to
/// hand the sync controller: direct translations in arrival order, then the
/// composed renames.
pub fn handle_events(events: Vec<RawEvent>) -> (r: Vec<WatchEvent>)
    ensures
        r@.map_values(|e: WatchEvent| e@) == spec_handle_events(
            events@.map_values(|e: RawEvent| e@),
        ),
{
    let ghost ev = events@.map_values(|e: RawEvent| e@);
    let mut rename_events = PendingRenames::new();
    let mut all_watch_events: Vec<WatchEvent> = Vec::new();
    let n = events.len();
    let mut i: usize = 0;
    while i < n
        invariant
            n == events@.len(),
            ev == events@.map_values(|e: RawEvent| e@),
            i <= n,
            rename_events.inv(),
            rename_events@ == spec_pending_of_batch(ev.subrange(0, i as int)),
            all_watch_events@.map_values(|e: WatchEvent| e@) == spec_direct_of_batch(
                ev.subrange(0, i as int),
            ),
        decreases n - i,
    {
        let ghost pre = all_watch_events@.map_values(|e: WatchEvent| e@);
        proof {
            assert(events@[i as int]@ == ev[i as int]);
        }
        let event = events[i].clone();
        let watch_events = create_watch_events(&mut rename_events, event);
        match watch_events {
            Option::None => {}
            Option::Some(mut v) => {
                all_watch_events.append(&mut v);
            }
        }
        proof {
            assert(ev.subrange(0, i + 1 as int).drop_last() =~= ev.subrange(0, i as int));
            assert(ev.subrange(0, i + 1 as int).last() == ev[i as int]);
            assert(all_watch_events@.map_values(|e: WatchEvent| e@) =~= pre + spec_direct_events(
                ev[i as int],
            ));
        }
        i = i + 1;
    }
    proof {
        assert(ev.subrange(0, n as int) =~= ev);
    }
    compose_rename_events(rename_events, &mut all_watch_events);
    all_watch_events
}

} // verus!

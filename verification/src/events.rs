//! Events entering the sync controller, and the rumor batches leaving it.

use vstd::prelude::*;

use crate::index::{FileV, IndexFile};

verus! {

/// One raw filesystem delta reported by the directory watcher.
#[derive(Clone, Debug, PartialEq, Eq)]
pub enum WatchEvent {
    Add { name: String },
    Modify { name: String },
    Rename { old_name: String, new_name: String },
    Delete { name: String },
}

/// Mathematical model of a [`WatchEvent`].
pub enum WatchEventV {
    Add { name: Seq<char> },
    Modify { name: Seq<char> },
    Rename { old_name: Seq<char>, new_name: Seq<char> },
    Delete { name: Seq<char> },
}

impl View for WatchEvent {
    type V = WatchEventV;

    open spec fn view(&self) -> WatchEventV {
        match self {
            WatchEvent::Add { name } => WatchEventV::Add { name: name@ },
            WatchEvent::Modify { name } => WatchEventV::Modify { name: name@ },
            WatchEvent::Rename { old_name, new_name } => WatchEventV::Rename {
                old_name: old_name@,
                new_name: new_name@,
            },
            WatchEvent::Delete { name } => WatchEventV::Delete { name: name@ },
        }
    }
}

/// What the sync controller consumes: local deltas, remote rumors, or a
/// request for a full reconciliation.
pub enum Event {
    Watch(Vec<WatchEvent>),
    Rumors { sender_id: String, remote_index: Vec<IndexFile> },
    SyncAll,
}

/// A batch of rumors to publish; `except`, when set, asks the transport to
/// fan out to every peer but the named origin.
pub struct SendRumors {
    pub dir_id: String,
    pub rumors: Vec<IndexFile>,
    pub except: Option<String>,
}

/// Mathematical model of a [`SendRumors`].
pub struct SendRumorsV {
    pub dir_id: Seq<char>,
    pub rumors: Seq<FileV>,
    pub except: Option<Seq<char>>,
}

impl View for SendRumors {
    type V = SendRumorsV;

    open spec fn view(&self) -> SendRumorsV {
        SendRumorsV {
            dir_id: self.dir_id@,
            rumors: self.rumors@.map_values(|f: IndexFile| f@),
            except: match self.except {
                Option::None => Option::None,
                Option::Some(e) => Option::Some(e@),
            },
        }
    }
}

} // verus!

//! The room document model and the asset-pipeline notifications that
//! drive reconciliation.

use vstd::prelude::*;

use crate::data::{PrefabData, PrefabDataView};
use crate::strmap::StrMap;

verus! {

/// A deserialized scene description: prefab entries under stable string
/// ids, unique within the room.  A room is immutable once loaded; a file
/// change produces a whole new `Room` value.
pub struct Room {
    pub prefabs: StrMap<PrefabData>,
}

impl View for Room {
    type V = Map<Seq<char>, PrefabDataView>;

    open spec fn view(&self) -> Map<Seq<char>, PrefabDataView> {
        self.prefabs@
    }
}

impl Room {
    /// Ids are distinct and every entry's field map is well formed.
    pub open spec fn wf(&self) -> bool {
        &&& self.prefabs.wf()
        &&& forall|i: int|
            0 <= i < self.prefabs.entries().len() ==> (#[trigger] self.prefabs.entries()[i]).1.wf()
    }

    /// A room with no prefabs.
    pub fn new() -> (r: Room)
        ensures
            r@ == Map::<Seq<char>, PrefabDataView>::empty(),
            r.wf(),
            r.prefabs.entries().len() == 0,
    {
        Room { prefabs: StrMap::new() }
    }
}

/// An opaque reference to one loaded room resource, handed out by the
/// host asset pipeline.
#[derive(Clone, Copy, PartialEq, Eq, Structural, Debug)]
pub struct RoomHandle {
    pub id: u64,
}

/// One notification from the host asset pipeline, delivered once per
/// scheduling tick.  These are the only transitions the tracker knows.
#[derive(Clone, Copy, PartialEq, Eq, Structural, Debug)]
pub enum RoomEvent {
    /// The resource finished loading for the first time.
    Created { handle: RoomHandle },
    /// The resource was reloaded after its file changed.
    Modified { handle: RoomHandle },
    /// The resource was dropped.
    Removed { handle: RoomHandle },
}

} // verus!

//! The map placement engine: per-hex state and the place/replace
//! operations.
//!
//! Each operation records a freshly spawned entity (the caller spawns it
//! with the texture or text to show) and hands back the entity it
//! supersedes, so the caller can dispose of it in the same frame: no
//! render entity is ever orphaned.

use vstd::prelude::*;
use crate::id::Id;
use crate::order::str_eq;
use crate::resources::TextureTreeResource;
use crate::tile::{EntityId, HexCoord, MapTile, OverlayLayer, Overlays, slots_of};

verus! {

/// The party's render entities, in marching order.
pub struct Party(pub Vec<EntityId>);

/// The hex map: one record per clicked hex, plus the combatant entities.
pub struct HexMap {
    pub tiles: Vec<(HexCoord, MapTile)>,
    pub combatants: Vec<EntityId>,
}

/// The first position recording `h`, or `-1`.
pub open spec fn hex_index(ts: Seq<(HexCoord, MapTile)>, h: HexCoord) -> int
    decreases ts.len(),
{
    if ts.len() == 0 {
        -1
    } else if ts[0].0 == h {
        0
    } else {
        let r = hex_index(ts.drop_first(), h);
        if r == -1 {
            -1
        } else {
            r + 1
        }
    }
}

/// What [`hex_index`] returns.
pub proof fn lemma_hex_index(ts: Seq<(HexCoord, MapTile)>, h: HexCoord)
    ensures
        ({
            let r = hex_index(ts, h);
            &&& -1 <= r < ts.len()
            &&& r >= 0 ==> ts[r].0 == h
            &&& forall|k: int| 0 <= k < r ==> (#[trigger] ts[k]).0 != h
            &&& r == -1 ==> forall|k: int| 0 <= k < ts.len() ==> (#[trigger] ts[k]).0 != h
        }),
    decreases ts.len(),
{
    if ts.len() > 0 && ts[0].0 != h {
        lemma_hex_index(ts.drop_first(), h);
        let r = hex_index(ts, h);
        assert forall|k: int| 0 <= k < r implies (#[trigger] ts[k]).0 != h by {
            if k > 0 {
                assert(ts.drop_first()[k - 1] == ts[k]);
            }
        }
        if r == -1 {
            assert forall|k: int| 0 <= k < ts.len() implies (#[trigger] ts[k]).0 != h by {
                if k > 0 {
                    assert(ts.drop_first()[k - 1] == ts[k]);
                }
            }
        }
    }
}

/// Each hex has at most one record.
pub open spec fn distinct_hexes(ts: Seq<(HexCoord, MapTile)>) -> bool {
    forall|a: int, b: int| 0 <= a < b < ts.len() ==> (#[trigger] ts[a]).0 != (#[trigger] ts[b]).0
}

/// The number of populated slots over the whole map: for each hex its
/// background, overlay layers and text.
pub open spec fn populated_slots(ts: Seq<(HexCoord, MapTile)>) -> int
    decreases ts.len(),
{
    if ts.len() == 0 {
        0int
    } else {
        populated_slots(ts.drop_last()) + slots_of(ts.last().1)
    }
}

/// Replacing one record changes the slot count by the difference at that
/// record.
pub proof fn lemma_populated_update(ts: Seq<(HexCoord, MapTile)>, j: int, p: (HexCoord, MapTile))
    requires
        0 <= j < ts.len(),
    ensures
        populated_slots(ts.update(j, p)) == populated_slots(ts) - slots_of(ts[j].1) + slots_of(
            p.1,
        ),
    decreases ts.len(),
{
    let nts = ts.update(j, p);
    if j == ts.len() - 1 {
        assert(nts.drop_last() =~= ts.drop_last());
        assert(nts.last() == p);
    } else {
        assert(nts.drop_last() =~= ts.drop_last().update(j, p));
        assert(nts.last() == ts.last());
        lemma_populated_update(ts.drop_last(), j, p);
        assert(ts.drop_last()[j] == ts[j]);
    }
}

/// In a well-formed map a hex's record is unique: two positions recording
/// the same hex coincide.
pub proof fn lemma_unique_hex(ts: Seq<(HexCoord, MapTile)>, a: int, b: int)
    requires
        distinct_hexes(ts),
        0 <= a < ts.len(),
        0 <= b < ts.len(),
        ts[a].0 == ts[b].0,
    ensures
        a == b,
{
}

/// The character sequence `location`.
pub open spec fn location_seg() -> Seq<char> {
    seq!['l', 'o', 'c', 'a', 't', 'i', 'o', 'n']
}

/// The character sequence `flair`.
pub open spec fn flair_seg() -> Seq<char> {
    seq!['f', 'l', 'a', 'i', 'r']
}

/// The character sequence `marker`.
pub open spec fn marker_seg() -> Seq<char> {
    seq!['m', 'a', 'r', 'k', 'e', 'r']
}

/// The overlay layer a segment names, if any.
pub open spec fn layer_of_seg(seg: Seq<char>) -> Option<OverlayLayer> {
    if seg == location_seg() {
        Some(OverlayLayer::Location)
    } else if seg == flair_seg() {
        Some(OverlayLayer::Flair)
    } else if seg == marker_seg() {
        Some(OverlayLayer::Marker)
    } else {
        None
    }
}

/// Executable layer recognition.
pub fn overlay_layer_of(seg: &str) -> (r: Option<OverlayLayer>)
    ensures
        match r {
            Some(l) => layer_of_seg(seg@) == Some(l),
            None => layer_of_seg(seg@) is None,
        },
{
    proof {
        reveal_strlit("location");
        reveal_strlit("flair");
        reveal_strlit("marker");
        assert("location"@ =~= location_seg());
        assert("flair"@ =~= flair_seg());
        assert("marker"@ =~= marker_seg());
    }
    if str_eq(seg, "location") {
        Some(OverlayLayer::Location)
    } else if str_eq(seg, "flair") {
        Some(OverlayLayer::Flair)
    } else if str_eq(seg, "marker") {
        Some(OverlayLayer::Marker)
    } else {
        None
    }
}

/// Picks the tile frame for this placement: the current wall-clock second
/// modulo the number of frames, so placements within one second repeat the
/// same frame.  The caller reads the clock.
pub fn select_frame(frame_count: usize, clock_second: u64) -> (r: usize)
    requires
        frame_count > 0,
    ensures
        r == clock_second as int % frame_count as int,
        r < frame_count,
{
    (clock_second % (frame_count as u64)) as usize
}

impl HexMap {
    /// An empty map.
    pub fn new() -> (r: HexMap)
        ensures
            r.wf(),
            r.tiles@ == Seq::<(HexCoord, MapTile)>::empty(),
            r.combatants@ == Seq::<EntityId>::empty(),
    {
        HexMap { tiles: Vec::new(), combatants: Vec::new() }
    }

    /// Hex records are unique.
    pub open spec fn wf(self) -> bool {
        distinct_hexes(self.tiles@)
    }

    /// Whether `hex` has a record.
    pub fn has_tile(&self, hex: HexCoord) -> (r: bool)
        ensures
            r == (hex_index(self.tiles@, hex) >= 0),
    {
        proof {
            lemma_hex_index(self.tiles@, hex);
        }
        let n = self.tiles.len();
        let mut j: usize = 0;
        while j < n
            invariant
                j <= n,
                n == self.tiles@.len(),
                forall|k: int| 0 <= k < j ==> (#[trigger] self.tiles@[k]).0 != hex,
                -1 <= hex_index(self.tiles@, hex) < n,
                hex_index(self.tiles@, hex) >= 0 ==> self.tiles@[hex_index(self.tiles@, hex)].0
                    == hex,
                hex_index(self.tiles@, hex) == -1 ==> forall|k: int|
                    0 <= k < n ==> (#[trigger] self.tiles@[k]).0 != hex,
            decreases n - j,
        {
            if self.tiles[j].0 == hex {
                proof {
                    let r = hex_index(self.tiles@, hex);
                    if r == -1 {
                        assert(self.tiles@[j as int].0 != hex);
                    }
                }
                return true;
            }
            j += 1;
        }
        proof {
            let r = hex_index(self.tiles@, hex);
            if r >= 0 {
                assert(self.tiles@[r].0 != hex);
            }
        }
        false
    }

    /// Finds the position of `hex`, if recorded.
    fn find_hex(&self, hex: HexCoord) -> (r: Option<usize>)
        ensures
            match r {
                Some(j) => hex_index(self.tiles@, hex) == j as int,
                None => hex_index(self.tiles@, hex) == -1,
            },
    {
        proof {
            lemma_hex_index(self.tiles@, hex);
        }
        let n = self.tiles.len();
        let mut j: usize = 0;
        while j < n
            invariant
                j <= n,
                n == self.tiles@.len(),
                forall|k: int| 0 <= k < j ==> (#[trigger] self.tiles@[k]).0 != hex,
                -1 <= hex_index(self.tiles@, hex) < n,
                hex_index(self.tiles@, hex) >= 0 ==> self.tiles@[hex_index(self.tiles@, hex)].0
                    == hex,
                forall|k: int|
                    0 <= k < hex_index(self.tiles@, hex) ==> (#[trigger] self.tiles@[k]).0 != hex,
                hex_index(self.tiles@, hex) == -1 ==> forall|k: int|
                    0 <= k < n ==> (#[trigger] self.tiles@[k]).0 != hex,
            decreases n - j,
        {
            if self.tiles[j].0 == hex {
                proof {
                    let r = hex_index(self.tiles@, hex);
                    if r < j {
                        assert(self.tiles@[j as int].0 != hex);
                    }
                    if r > j {
                        assert(self.tiles@[j as int].0 != hex);
                    }
                }
                return Some(j);
            }
            j += 1;
        }
        proof {
            let r = hex_index(self.tiles@, hex);
            if r >= 0 {
                assert(self.tiles@[r].0 != hex);
            }
        }
        None
    }

    /// Places a background tile at `hex`: records the freshly spawned
    /// `entity` (carrying the texture of the leaf `id`) and returns the
    /// superseded background entity, to be despawned by the caller.
    pub fn place_tile(
        &mut self,
        texture_tree: &TextureTreeResource,
        hex: HexCoord,
        id: Id,
        entity: EntityId,
    ) -> (disposed: Option<EntityId>)
        requires
            old(self).wf(),
            texture_tree.0@.lookup(id@) is Some,
            texture_tree.0@.lookup(id@).unwrap() is Leaf,
        ensures
            final(self).wf(),
            final(self).combatants@ == old(self).combatants@,
            ({
                let ts = old(self).tiles@;
                let nts = final(self).tiles@;
                let j = hex_index(ts, hex);
                &&& (j == -1 ==> {
                    &&& disposed is None
                    &&& nts.len() == ts.len() + 1
                    &&& nts.drop_last() == ts
                    &&& nts.last().0 == hex
                    &&& (nts.last().1.background matches Some(b) && b.0 == entity && b.1 == id)
                    &&& nts.last().1.overlay.location is None
                    &&& nts.last().1.overlay.flair is None
                    &&& nts.last().1.overlay.marker is None
                    &&& nts.last().1.text is None
                })
                &&& (j >= 0 ==> {
                    &&& nts == ts.update(j, nts[j])
                    &&& nts[j].0 == hex
                    &&& (nts[j].1.background matches Some(b) && b.0 == entity && b.1 == id)
                    &&& nts[j].1.overlay == ts[j].1.overlay
                    &&& nts[j].1.text == ts[j].1.text
                    &&& disposed == (match ts[j].1.background {
                        Some(b) => Some(b.0),
                        None => None,
                    })
                })
                &&& populated_slots(nts) == populated_slots(ts) + 1 - (if disposed is Some {
                    1int
                } else {
                    0int
                })
            }),
    {
        let ghost ts = self.tiles@;
        match self.find_hex(hex) {
            Some(j) => {
                proof {
                    lemma_hex_index(ts, hex);
                }
                let disposed = match &self.tiles[j].1.background {
                    Some(b) => Some(b.0),
                    None => None,
                };
                let elem = &mut self.tiles[j];
                elem.1.background = Some((entity, id));
                proof {
                    let nts = self.tiles@;
                    assert(nts =~= ts.update(j as int, nts[j as int]));
                    lemma_populated_update(ts, j as int, nts[j as int]);
                    assert forall|a: int, b: int|
                        0 <= a < b < nts.len() implies (#[trigger] nts[a]).0 != (
                    #[trigger] nts[b]).0 by {
                        assert(ts[a].0 == nts[a].0 && ts[b].0 == nts[b].0);
                    }
                }
                disposed
            },
            None => {
                let tile = MapTile {
                    background: Some((entity, id)),
                    overlay: Overlays::new(),
                    text: None,
                };
                self.tiles.push((hex, tile));
                proof {
                    let nts = self.tiles@;
                    assert(nts.drop_last() =~= ts);
                    lemma_hex_index(ts, hex);
                    assert forall|a: int, b: int|
                        0 <= a < b < nts.len() implies (#[trigger] nts[a]).0 != (
                    #[trigger] nts[b]).0 by {
                        if b == nts.len() - 1 {
                            assert(nts[a].0 == ts[a].0);
                        } else {
                            assert(nts[a].0 == ts[a].0 && nts[b].0 == ts[b].0);
                        }
                    }
                }
                None
            },
        }
    }

    /// Places an overlay at `hex` on the layer named by the identifier's
    /// second segment: records the freshly spawned `entity` and returns the
    /// superseded overlay entity of that layer.  The hex must already carry
    /// a tile record; an unknown layer segment is a programming error and
    /// is excluded by contract.
    pub fn place_overlay(
        &mut self,
        texture_tree: &TextureTreeResource,
        hex: HexCoord,
        id: Id,
        entity: EntityId,
    ) -> (disposed: Option<EntityId>)
        requires
            old(self).wf(),
            texture_tree.0@.lookup(id@) is Some,
            texture_tree.0@.lookup(id@).unwrap() is Leaf,
            id@.len() >= 2,
            layer_of_seg(id@[1]) is Some,
            hex_index(old(self).tiles@, hex) >= 0,
        ensures
            final(self).wf(),
            final(self).combatants@ == old(self).combatants@,
            ({
                let ts = old(self).tiles@;
                let nts = final(self).tiles@;
                let j = hex_index(ts, hex);
                let layer = layer_of_seg(id@[1]).unwrap();
                &&& nts == ts.update(j, nts[j])
                &&& nts[j].0 == hex
                &&& (nts[j].1.overlay.slot(layer) matches Some(s) && s.0 == entity && s.1 == id)
                &&& forall|l2: OverlayLayer|
                    l2 != layer ==> #[trigger] nts[j].1.overlay.slot(l2) == ts[j].1.overlay.slot(
                        l2,
                    )
                &&& nts[j].1.background == ts[j].1.background
                &&& nts[j].1.text == ts[j].1.text
                &&& disposed == (match ts[j].1.overlay.slot(layer) {
                    Some(s) => Some(s.0),
                    None => None,
                })
                &&& populated_slots(nts) == populated_slots(ts) + 1 - (if disposed is Some {
                    1int
                } else {
                    0int
                })
            }),
    {
        let ghost ts = self.tiles@;
        let j = match self.find_hex(hex) {
            Some(j) => j,
            None => {
                proof {
                    assert(false);
                }
                0
            },
        };
        proof {
            lemma_hex_index(ts, hex);
        }
        let seg: &str = match id.get(1) {
            Some(s) => s,
            None => {
                proof {
                    assert(false);
                }
                ""
            },
        };
        let layer = match overlay_layer_of(seg) {
            Some(l) => l,
            None => {
                proof {
                    assert(false);
                }
                OverlayLayer::Location
            },
        };
        let disposed = match layer {
            OverlayLayer::Location => match &self.tiles[j].1.overlay.location {
                Some(s) => Some(s.0),
                None => None,
            },
            OverlayLayer::Flair => match &self.tiles[j].1.overlay.flair {
                Some(s) => Some(s.0),
                None => None,
            },
            OverlayLayer::Marker => match &self.tiles[j].1.overlay.marker {
                Some(s) => Some(s.0),
                None => None,
            },
        };
        let elem = &mut self.tiles[j];
        match layer {
            OverlayLayer::Location => {
                elem.1.overlay.location = Some((entity, id));
            },
            OverlayLayer::Flair => {
                elem.1.overlay.flair = Some((entity, id));
            },
            OverlayLayer::Marker => {
                elem.1.overlay.marker = Some((entity, id));
            },
        }
        proof {
            let nts = self.tiles@;
            assert(nts =~= ts.update(j as int, nts[j as int]));
            lemma_populated_update(ts, j as int, nts[j as int]);
            assert forall|l2: OverlayLayer|
                l2 != layer implies #[trigger] nts[j as int].1.overlay.slot(l2)
                == ts[j as int].1.overlay.slot(l2) by {}
            assert forall|a: int, b: int|
                0 <= a < b < nts.len() implies (#[trigger] nts[a]).0 != (#[trigger] nts[b]).0 by {
                assert(ts[a].0 == nts[a].0 && ts[b].0 == nts[b].0);
            }
        }
        disposed
    }

    /// Places a text label at `hex`: records the freshly spawned text
    /// `entity` with its text and returns the superseded text entity.  The
    /// hex must already carry a tile record.
    pub fn place_text(&mut self, hex: HexCoord, text: String, entity: EntityId) -> (disposed:
        Option<EntityId>)
        requires
            old(self).wf(),
            hex_index(old(self).tiles@, hex) >= 0,
        ensures
            final(self).wf(),
            final(self).combatants@ == old(self).combatants@,
            ({
                let ts = old(self).tiles@;
                let nts = final(self).tiles@;
                let j = hex_index(ts, hex);
                &&& nts == ts.update(j, nts[j])
                &&& nts[j].0 == hex
                &&& (nts[j].1.text matches Some(t) && t.0 == entity && t.1 == text)
                &&& nts[j].1.background == ts[j].1.background
                &&& nts[j].1.overlay == ts[j].1.overlay
                &&& disposed == (match ts[j].1.text {
                    Some(t) => Some(t.0),
                    None => None,
                })
                &&& populated_slots(nts) == populated_slots(ts) + 1 - (if disposed is Some {
                    1int
                } else {
                    0int
                })
            }),
    {
        let ghost ts = self.tiles@;
        let j = match self.find_hex(hex) {
            Some(j) => j,
            None => {
                proof {
                    assert(false);
                }
                0
            },
        };
        proof {
            lemma_hex_index(ts, hex);
        }
        let disposed = match &self.tiles[j].1.text {
            Some(t) => Some(t.0),
            None => None,
        };
        let elem = &mut self.tiles[j];
        elem.1.text = Some((entity, text));
        proof {
            let nts = self.tiles@;
            assert(nts =~= ts.update(j as int, nts[j as int]));
            lemma_populated_update(ts, j as int, nts[j as int]);
            assert forall|a: int, b: int|
                0 <= a < b < nts.len() implies (#[trigger] nts[a]).0 != (#[trigger] nts[b]).0 by {
                assert(ts[a].0 == nts[a].0 && ts[b].0 == nts[b].0);
            }
        }
        disposed
    }
}

} // verus!

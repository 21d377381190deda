//! Per-hex map state: the background tile, up to three overlay layers, and
//! an optional text label.

use vstd::prelude::*;
use crate::id::Id;

verus! {

/// An opaque render-entity token handed out by the external framework.
#[derive(Debug, Clone, Copy, PartialEq, Eq, Structural, Hash)]
pub struct EntityId(pub u64);

/// Axial hex coordinates (pointy-top layout).
#[derive(Debug, Clone, Copy, PartialEq, Eq, Structural, Hash)]
pub struct HexCoord {
    pub q: i32,
    pub r: i32,
}

/// Which part of a hex's artwork an operation concerns.
#[derive(Debug, Clone, Copy)]
pub enum TilePart {
    Background,
    Overlay,
    Text,
}

/// The three overlay layers a hex can carry above its background.
#[derive(Debug, Clone, Copy, PartialEq, Eq, Structural)]
pub enum OverlayLayer {
    Location,
    Flair,
    Marker,
}

/// The per-layer overlay slots of one hex: at most one entity per layer,
/// each remembered with the identifier it was placed from.
#[derive(Debug)]
pub struct Overlays {
    pub location: Option<(EntityId, Id)>,
    pub flair: Option<(EntityId, Id)>,
    pub marker: Option<(EntityId, Id)>,
}

impl Overlays {
    /// No overlay on any layer.
    pub fn new() -> (r: Overlays)
        ensures
            r.location is None,
            r.flair is None,
            r.marker is None,
    {
        Overlays { location: None, flair: None, marker: None }
    }

    /// The slot of the given layer.
    pub open spec fn slot(self, layer: OverlayLayer) -> Option<(EntityId, Id)> {
        match layer {
            OverlayLayer::Location => self.location,
            OverlayLayer::Flair => self.flair,
            OverlayLayer::Marker => self.marker,
        }
    }
}

/// The record of one hex: background tile, overlays, text.
#[derive(Debug)]
pub struct MapTile {
    /// The background sprite and the identifier it was placed from.
    pub background: Option<(EntityId, Id)>,
    /// The overlay layers.
    pub overlay: Overlays,
    /// The text label, with its entity.
    pub text: Option<(EntityId, String)>,
}

/// How many of a hex's slots are populated: the background, each overlay
/// layer, and the text count one each.
pub open spec fn slots_of(t: MapTile) -> int {
    (if t.background is Some {
        1int
    } else {
        0int
    }) + (if t.overlay.location is Some {
        1int
    } else {
        0int
    }) + (if t.overlay.flair is Some {
        1int
    } else {
        0int
    }) + (if t.overlay.marker is Some {
        1int
    } else {
        0int
    }) + (if t.text is Some {
        1int
    } else {
        0int
    })
}

} // verus!

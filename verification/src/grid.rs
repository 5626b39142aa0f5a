use vstd::arithmetic::div_mod::lemma_fundamental_div_mod_converse;
use vstd::prelude::*;

use crate::settings::Settings;

verus! {

/// One pickable placement target of the grid.
#[derive(Debug, Clone, Copy)]
pub struct GridTile {
    /// Grid position along the x axis, counted from the low edge.
    pub x: u32,
    /// Grid position along the z axis.
    pub z: u32,
    /// Offset of the tile centre from the grid origin along x, in half-tile
    /// steps — twice the position minus the tile count — so the layout stays
    /// symmetric around the origin without fractional coordinates. The
    /// presentation layer scales it by half the tile size.
    pub offset_x2: i64,
    /// The same along z.
    pub offset_z2: i64,
    /// What stands on the tile; this core never populates it.
    pub occupant: Option<u64>,
    /// Hover state: `true` between a pointer-enter and the matching exit.
    pub hovered: bool,
}

/// The fields construction gives the tile at flat index `i` of a grid with
/// `count_z + 1` tiles per row.
pub open spec fn tile_ok(count_x: u32, count_z: u32, i: int, t: GridTile) -> bool {
    let zc = count_z + 1;
    &&& t.x == i / zc
    &&& t.z == i % zc
    &&& t.offset_x2 == 2 * (i / zc) - count_x
    &&& t.offset_z2 == 2 * (i % zc) - count_z
}

/// The placement grid: the configured tile counts and sizes, and the tiles
/// in row-major order (x outer, z inner). The tile set is fixed after
/// construction; only hover flags change, driven by pointer events.
#[derive(Debug, Clone)]
pub struct Grid {
    pub count_x: u32,
    pub count_z: u32,
    pub tile_size_x: u32,
    pub tile_size_z: u32,
    pub tiles: Vec<GridTile>,
}

impl Grid {
    /// The flat index of grid position `(xi, zi)`.
    pub open spec fn tile_index(self, xi: int, zi: int) -> int {
        xi * (self.count_z + 1) + zi
    }

    /// Geometric well-formedness: one tile per grid position of the two
    /// inclusive ranges, in row-major order, centred around the origin.
    pub open spec fn wf(self) -> bool {
        &&& self.tiles@.len() == (self.count_x + 1) * (self.count_z + 1)
        &&& forall|i: int|
            0 <= i < self.tiles@.len() ==> tile_ok(
                self.count_x,
                self.count_z,
                i,
                #[trigger] self.tiles@[i],
            )
    }
}

/// Lays the grid out from the configuration: `(x + 1) * (z + 1)` tiles over
/// the inclusive position ranges, mirrored around the grid origin, with no
/// occupants and nothing hovered.
pub fn setup_grid(settings: &Settings) -> (g: Grid)
    requires
        settings.grid_size.x < u32::MAX,
        settings.grid_size.z < u32::MAX,
    ensures
        g.count_x == settings.grid_size.x,
        g.count_z == settings.grid_size.z,
        g.tile_size_x == settings.tile_size.x,
        g.tile_size_z == settings.tile_size.z,
        g.wf(),
        forall|i: int|
            0 <= i < g.tiles@.len() ==> (#[trigger] g.tiles@[i]).occupant is None
                && !g.tiles@[i].hovered,
{
    let cx = settings.grid_size.x;
    let cz = settings.grid_size.z;
    let mut tiles: Vec<GridTile> = Vec::new();
    let mut xp: u32 = 0;
    while xp <= cx
        invariant
            cx < u32::MAX,
            cz < u32::MAX,
            xp <= cx + 1,
            tiles@.len() == xp * (cz + 1),
            forall|i: int|
                0 <= i < tiles@.len() ==> tile_ok(cx, cz, i, #[trigger] tiles@[i])
                    && tiles@[i].occupant is None && !tiles@[i].hovered,
        decreases cx + 1 - xp,
    {
        let mut zp: u32 = 0;
        while zp <= cz
            invariant
                cx < u32::MAX,
                cz < u32::MAX,
                xp <= cx,
                zp <= cz + 1,
                tiles@.len() == xp * (cz + 1) + zp,
                forall|i: int|
                    0 <= i < tiles@.len() ==> tile_ok(cx, cz, i, #[trigger] tiles@[i])
                        && tiles@[i].occupant is None && !tiles@[i].hovered,
            decreases cz + 1 - zp,
        {
            let ox2: i64 = 2 * (xp as i64) - (cx as i64);
            let oz2: i64 = 2 * (zp as i64) - (cz as i64);
            tiles.push(
                GridTile {
                    x: xp,
                    z: zp,
                    offset_x2: ox2,
                    offset_z2: oz2,
                    occupant: None,
                    hovered: false,
                },
            );
            proof {
                let i0 = tiles@.len() - 1;
                lemma_fundamental_div_mod_converse(
                    i0 as int,
                    (cz + 1) as int,
                    xp as int,
                    zp as int,
                );
            }
            zp = zp + 1;
        }
        xp = xp + 1;
        proof {
            let zc = (cz + 1) as int;
            assert((xp as int) * zc == (xp - 1) * zc + zc) by (nonlinear_arith);
        }
    }
    Grid {
        count_x: cx,
        count_z: cz,
        tile_size_x: settings.tile_size.x,
        tile_size_z: settings.tile_size.z,
        tiles,
    }
}

/// The tile of grid position `(xi, zi)` stands at flat index
/// `tile_index(xi, zi)`, carrying that position and the centred offsets.
pub proof fn lemma_tile_at(g: Grid, xi: int, zi: int)
    requires
        g.wf(),
        0 <= xi <= g.count_x,
        0 <= zi <= g.count_z,
    ensures
        0 <= g.tile_index(xi, zi) < g.tiles@.len(),
        g.tiles@[g.tile_index(xi, zi)].x == xi,
        g.tiles@[g.tile_index(xi, zi)].z == zi,
        g.tiles@[g.tile_index(xi, zi)].offset_x2 == 2 * xi - g.count_x,
        g.tiles@[g.tile_index(xi, zi)].offset_z2 == 2 * zi - g.count_z,
{
    let zc = (g.count_z + 1) as int;
    let i = xi * zc + zi;
    assert(0 <= i && i < ((g.count_x + 1) as int) * zc) by (nonlinear_arith)
        requires
            0 <= xi <= g.count_x as int,
            0 <= zi < zc,
            i == xi * zc + zi,
    ;
    lemma_fundamental_div_mod_converse(i, zc, xi, zi);
}

/// A pointer event the picking collaborator delivers, scoped to one tile
/// (given by its flat index).
#[derive(Debug, Clone, Copy, PartialEq, Eq, Structural)]
pub enum PointerEvent {
    Over(usize),
    Out(usize),
}

/// The observation a tile emits on a pointer event; it carries no mutation
/// of the tile beyond the hover flag.
#[derive(Debug, Clone, Copy, PartialEq, Eq, Structural)]
pub enum HoverNote {
    Enter(usize),
    Exit(usize),
}

/// Whether an event propagates past its target. Tiles consume their hover
/// events, so this core always answers `Burst`.
#[derive(Debug, Clone, Copy, PartialEq, Eq, Structural)]
pub enum Bubble {
    Up,
    Burst,
}

pub open spec fn event_tile(e: PointerEvent) -> usize {
    match e {
        PointerEvent::Over(t) => t,
        PointerEvent::Out(t) => t,
    }
}

pub open spec fn note_of(e: PointerEvent) -> HoverNote {
    match e {
        PointerEvent::Over(t) => HoverNote::Enter(t),
        PointerEvent::Out(t) => HoverNote::Exit(t),
    }
}

pub open spec fn note_tile(n: HoverNote) -> usize {
    match n {
        HoverNote::Enter(t) => t,
        HoverNote::Exit(t) => t,
    }
}

/// The tile states after a sequence of hover events: each event rewrites the
/// hover flag of exactly its own tile and is consumed there.
pub open spec fn apply_events(ts: Seq<GridTile>, events: Seq<PointerEvent>) -> Seq<GridTile>
    decreases events.len(),
{
    if events.len() == 0 {
        ts
    } else {
        let prev = apply_events(ts, events.drop_last());
        let e = events.last();
        let t = event_tile(e);
        if t < prev.len() {
            prev.update(t as int, (GridTile { hovered: e is Over, ..prev[t as int] }))
        } else {
            prev
        }
    }
}

impl Grid {
    /// Pointer-enter on one tile: that tile alone becomes hovered, an enter
    /// note is emitted for it, and the event is consumed (no propagation).
    pub fn on_pointer_over(&mut self, tile: usize) -> (r: (HoverNote, Bubble))
        requires
            tile < old(self).tiles@.len(),
        ensures
            final(self).tiles@ =~= old(self).tiles@.update(
                tile as int,
                (GridTile { hovered: true, ..old(self).tiles@[tile as int] }),
            ),
            final(self).count_x == old(self).count_x,
            final(self).count_z == old(self).count_z,
            final(self).tile_size_x == old(self).tile_size_x,
            final(self).tile_size_z == old(self).tile_size_z,
            r == (HoverNote::Enter(tile), Bubble::Burst),
    {
        self.tiles[tile].hovered = true;
        (HoverNote::Enter(tile), Bubble::Burst)
    }

    /// Pointer-exit on one tile: that tile alone returns to idle, an exit
    /// note is emitted for it, and the event is consumed.
    pub fn on_pointer_out(&mut self, tile: usize) -> (r: (HoverNote, Bubble))
        requires
            tile < old(self).tiles@.len(),
        ensures
            final(self).tiles@ =~= old(self).tiles@.update(
                tile as int,
                (GridTile { hovered: false, ..old(self).tiles@[tile as int] }),
            ),
            final(self).count_x == old(self).count_x,
            final(self).count_z == old(self).count_z,
            final(self).tile_size_x == old(self).tile_size_x,
            final(self).tile_size_z == old(self).tile_size_z,
            r == (HoverNote::Exit(tile), Bubble::Burst),
    {
        self.tiles[tile].hovered = false;
        (HoverNote::Exit(tile), Bubble::Burst)
    }

    /// Delivers a batch of pointer events in order: each yields exactly one
    /// note, for its own tile, and touches no other tile's state. An event
    /// scoped to no existing tile is answered but changes nothing.
    pub fn process_pointer_events(&mut self, events: &Vec<PointerEvent>) -> (notes: Vec<
        HoverNote,
    >)
        ensures
            notes@ =~= Seq::new(events@.len(), |i: int| note_of(events@[i])),
            final(self).tiles@ =~= apply_events(old(self).tiles@, events@),
            final(self).count_x == old(self).count_x,
            final(self).count_z == old(self).count_z,
            final(self).tile_size_x == old(self).tile_size_x,
            final(self).tile_size_z == old(self).tile_size_z,
    {
        let mut notes: Vec<HoverNote> = Vec::new();
        let mut i: usize = 0;
        while i < events.len()
            invariant
                i <= events@.len(),
                notes@.len() == i,
                forall|k: int| 0 <= k < i ==> notes@[k] == note_of(events@[k]),
                self.tiles@ =~= apply_events(old(self).tiles@, events@.take(i as int)),
                self.count_x == old(self).count_x,
                self.count_z == old(self).count_z,
                self.tile_size_x == old(self).tile_size_x,
                self.tile_size_z == old(self).tile_size_z,
            decreases events@.len() - i,
        {
            let (tile, over) = match events[i] {
                PointerEvent::Over(t) => (t, true),
                PointerEvent::Out(t) => (t, false),
            };
            if tile < self.tiles.len() {
                if over {
                    let n = self.on_pointer_over(tile);
                    notes.push(n.0);
                } else {
                    let n = self.on_pointer_out(tile);
                    notes.push(n.0);
                }
            } else {
                if over {
                    notes.push(HoverNote::Enter(tile));
                } else {
                    notes.push(HoverNote::Exit(tile));
                }
            }
            i = i + 1;
            proof {
                assert(events@.take(i as int).drop_last() =~= events@.take(i - 1));
                assert(events@.take(i as int).last() == events@[i - 1]);
            }
        }
        proof {
            assert(events@.take(events@.len() as int) =~= events@);
        }
        notes
    }
}

/// A single uninterrupted pointer path across one tile — enter, then leave —
/// notifies exactly that tile, once of each, in that order; every note names
/// that tile, no other tile's state changes, and the crossed tile ends
/// unhovered.
pub proof fn lemma_hover_crossing(ts: Seq<GridTile>, t: usize)
    requires
        t < ts.len(),
    ensures
        ({
            let events = seq![PointerEvent::Over(t), PointerEvent::Out(t)];
            let notes = Seq::new(events.len(), |i: int| note_of(events[i]));
            &&& notes =~= seq![HoverNote::Enter(t), HoverNote::Exit(t)]
            &&& forall|i: int| 0 <= i < notes.len() ==> note_tile(#[trigger] notes[i]) == t
            &&& apply_events(ts, events) =~= ts.update(
                t as int,
                (GridTile { hovered: false, ..ts[t as int] }),
            )
        }),
{
    let events = seq![PointerEvent::Over(t), PointerEvent::Out(t)];
    let e0 = Seq::<PointerEvent>::empty();
    let e1 = seq![PointerEvent::Over(t)];
    assert(events.drop_last() =~= e1);
    assert(e1.drop_last() =~= e0);
    assert(e1.last() == PointerEvent::Over(t));
    assert(events.last() == PointerEvent::Out(t));
    assert(apply_events(ts, e0) == ts);
    let s1 = apply_events(ts, e1);
    assert(s1 == ts.update(t as int, (GridTile { hovered: true, ..ts[t as int] })));
    assert(s1.len() == ts.len());
    assert(s1[t as int] == (GridTile { hovered: true, ..ts[t as int] }));
    let s2 = apply_events(ts, events);
    assert(s2 == s1.update(t as int, (GridTile { hovered: false, ..s1[t as int] })));
    assert(s2 =~= ts.update(t as int, (GridTile { hovered: false, ..ts[t as int] })));
}

} // verus!

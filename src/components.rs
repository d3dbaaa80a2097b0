use vstd::prelude::*;

verus! {

#[derive(Clone, Copy, Debug, PartialEq, Eq, Structural)]
pub struct Position {
    pub x: i32,
    pub y: i32,
}

/// The named colors the render collaborator knows how to draw.
#[derive(Clone, Copy, Debug, PartialEq, Eq, Structural)]
pub enum Color {
    Black,
    Red,
    Yellow,
    Magenta,
    Cyan,
    Orange,
    Purple,
}

#[derive(Clone, Copy, Debug, PartialEq, Eq, Structural)]
pub struct Renderable {
    pub glyph: u16,
    pub foreground: Color,
    pub background: Color,
    /// Lower values are drawn on top.
    pub render_order: i32,
}

/// The cached field of view of an entity; `dirty` asks for recomputation.
#[derive(Debug)]
pub struct Viewshed {
    pub visible_tiles: Vec<Position>,
    pub range: i32,
    pub dirty: bool,
}

#[derive(Clone, Copy, Debug, PartialEq, Eq, Structural)]
pub struct CombatStats {
    pub max_hp: i32,
    pub hp: i32,
    pub defense: i32,
    pub power: i32,
}

/// One event of the message log. Names are looked up by whoever displays it.
#[derive(Clone, Copy, Debug, PartialEq, Eq, Structural)]
pub enum LogEntry {
    /// The attacker hurt the target for `damage` hit points.
    Hit { attacker: usize, target: usize, damage: i64 },
    /// The attacker could not negatively affect the target.
    NoEffect { attacker: usize, target: usize },
}

#[derive(Clone, Copy, Debug, PartialEq, Eq, Structural)]
pub enum RunState {
    Paused,
    Running,
}

} // verus!

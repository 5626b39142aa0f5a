use vstd::prelude::*;

verus! {

/// A triple of unsigned components; the grid reads the `x` and `z` axes of the
/// horizontal plane, `y` is carried for completeness.
#[derive(Clone, Copy, Debug, PartialEq, Eq, Structural)]
pub struct UVec3 {
    pub x: u32,
    pub y: u32,
    pub z: u32,
}

impl UVec3 {
    pub fn splat(v: u32) -> (r: Self)
        ensures
            r.x == v,
            r.y == v,
            r.z == v,
    {
        UVec3 { x: v, y: v, z: v }
    }
}

/// Where the assets of one kind come from: everything discovered under a
/// folder, or an explicit ordered list of files.
#[derive(Debug, Clone)]
pub enum Path {
    Folder(String),
    Files(Vec<String>),
}

/// Configuration for one load cycle: the model source, the optional preview
/// image source, and the grid dimensions. Immutable once the cycle starts.
#[derive(Debug, Clone)]
pub struct Settings {
    pub models: Path,
    pub images: Option<Path>,
    pub grid_size: UVec3,
    pub tile_size: UVec3,
}

impl Default for Settings {
    fn default() -> (r: Self)
        ensures
            r.models matches Path::Folder(f) && f@ == "models"@,
            r.images matches Some(p) && p matches Path::Folder(f) && f@ == "preview"@,
            r.grid_size == (UVec3 { x: 10, y: 10, z: 10 }),
            r.tile_size == (UVec3 { x: 1, y: 1, z: 1 }),
    {
        Settings {
            models: Path::Folder("models".to_owned()),
            images: Some(Path::Folder("preview".to_owned())),
            grid_size: UVec3::splat(10),
            tile_size: UVec3::splat(1),
        }
    }
}

} // verus!

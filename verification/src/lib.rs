use vstd::prelude::*;

pub mod grid;
pub mod loading;
pub mod settings;
pub mod ui;

verus! {

/// A chosen catalog entry: its name, the opaque reference to its model scene,
/// and the presentable image id if one was registered for it.
#[derive(Debug, Clone)]
pub struct Scene {
    pub name: String,
    pub model: u64,
    pub image: Option<u64>,
}

/// The currently selected catalog entry, if any. At most one selection is
/// active at a time; selecting a new entry silently replaces the previous one.
#[derive(Debug, Clone)]
pub struct SelectedScene(pub Option<Scene>);

impl Default for SelectedScene {
    fn default() -> (r: Self)
        ensures
            r.0 is None,
    {
        SelectedScene(None)
    }
}

impl SelectedScene {
    /// Replaces the current selection with the given entry's data.
    pub fn select(&mut self, name: &String, model: u64, image: Option<u64>)
        ensures
            final(self).0 matches Some(s) && s.name@ == name@ && s.model == model && s.image
                == image,
    {
        self.0 = Some(Scene { name: name.clone(), model, image });
    }
}

} // verus!

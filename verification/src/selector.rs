//! Selection of an entity by clicking on it.

use vstd::prelude::*;

verus! {

/// The entity currently selected, by name.
pub struct Selector {
    pub current_selected: Option<String>,
}

/// What a pick changes on screen: the outline to hide and the one to show.
pub struct PickOutcome {
    pub deselect: Option<String>,
    pub select: Option<String>,
}

impl Selector {
    /// Nothing selected.
    pub fn new() -> (r: Self)
        ensures
            r.current_selected is None,
    {
        Selector { current_selected: None }
    }

    /// Takes in the entity id read under the cursor (0 where there is no
    /// entity) and the name of the entity with that id, if the scene has one.
    /// The previous selection is given up; a non-zero id of a named entity
    /// becomes the selection.
    pub fn apply_pick(&mut self, entity_id: u8, picked_name: Option<String>) -> (r: PickOutcome)
        ensures
            r.deselect == old(self).current_selected,
            final(self).current_selected == (if entity_id != 0 { picked_name } else { None }),
            r.select == final(self).current_selected,
    {
        let previous = self.current_selected.take();
        let chosen = if entity_id != 0 { picked_name } else { None };
        let shown = match &chosen {
            Some(n) => Some(n.clone()),
            None => None,
        };
        self.current_selected = chosen;
        PickOutcome { deselect: previous, select: shown }
    }
}

impl Default for Selector {
    fn default() -> (r: Self)
        ensures
            r.current_selected is None,
    {
        Selector::new()
    }
}

/// The plugin that lets the user select entities by clicking on them.
pub struct SelectorPlugin {
    pub autorun: bool,
}

impl SelectorPlugin {
    pub fn new(autorun: bool) -> (r: Self)
        ensures
            r.autorun == autorun,
    {
        SelectorPlugin { autorun }
    }
}

} // verus!

//! The brush: what the pointer and the keys have asked for.

use crate::materials::{MaterialId, Materials};
use vstd::prelude::*;

verus! {

/// The state of the brush between two frames.
#[derive(Copy, Clone, Debug, PartialEq, Eq)]
pub struct Brush {
    /// A mouse button is held: the brush paints.
    pub active: bool,
    /// How many cells the brush reaches from the pointer, in each
    /// direction.
    pub radius: u8,
    /// What the brush paints: a material, or the eraser (`None`).
    pub fill: Option<MaterialId>,
    /// The key that clears the board is held.
    pub clear: bool,
}

/// `key` is the name of the key that clears the board.
pub open spec fn is_clear_key(key: Seq<char>) -> bool {
    key == "C"@
}

impl Brush {
    /// What the brush paints is the eraser or a material of `catalog`.
    pub open spec fn fits(self, catalog: Materials) -> bool {
        match self.fill {
            Some(id) => catalog.contains(id),
            None => true,
        }
    }

    /// The brush after the key named `key` went down: the clearing key
    /// asks for a clear board, any other key picks the first material
    /// bound to it, if there is one.
    pub open spec fn after_key_pressed(self, key: Seq<char>, catalog: Materials) -> Brush {
        if is_clear_key(key) {
            Brush { clear: true, ..self }
        } else {
            match catalog.id_of_key(key) {
                Some(id) => Brush { fill: Some(id), ..self },
                None => self,
            }
        }
    }

    /// A brush at rest that reaches `radius` cells and holds the material
    /// with the identifier 0.
    pub fn new(radius: u8) -> (brush: Self)
        ensures
            brush == (Brush { active: false, radius, fill: Some(MaterialId(0)), clear: false }),
    {
        Self { active: false, radius, fill: Some(MaterialId(0)), clear: false }
    }

    /// A mouse button went down: the brush paints from now on, and the
    /// right button picks the eraser.
    pub fn mouse_pressed(&mut self, right: bool)
        ensures
            *final(self) == (Brush {
                active: true,
                fill: if right {
                    None
                } else {
                    old(self).fill
                },
                ..*old(self)
            }),
    {
        self.active = true;
        if right {
            self.fill = None;
        }
    }

    /// A mouse button went up: the brush stops painting.
    pub fn mouse_released(&mut self)
        ensures
            *final(self) == (Brush { active: false, ..*old(self) }),
    {
        self.active = false;
    }

    /// The key named `key` went down.
    pub fn key_pressed(&mut self, key: &str, materials: &Materials)
        ensures
            *final(self) == old(self).after_key_pressed(key@, *materials),
            old(self).fits(*materials) ==> final(self).fits(*materials),
    {
        if Self::clears(key) {
            self.clear = true;
        } else if let Some(material_id) = materials.get_id_by_key(key) {
            self.fill = Some(material_id);
        }
    }

    /// The key named `key` went up: the clearing key no longer asks for a
    /// clear board.
    pub fn key_released(&mut self, key: &str)
        ensures
            *final(self) == if is_clear_key(key@) {
                Brush { clear: false, ..*old(self) }
            } else {
                *old(self)
            },
    {
        if Self::clears(key) {
            self.clear = false;
        }
    }

    /// Whether `key` names the key that clears the board.
    fn clears(key: &str) -> (clears: bool)
        ensures
            clears == is_clear_key(key@),
    {
        key.to_owned() == "C".to_owned()
    }
}

} // verus!

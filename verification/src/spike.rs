//! Spikes: the side of the cell that a spike grows from.

use vstd::prelude::*;

verus! {

/// The side of its cell that a spike grows from.
#[derive(Clone, Copy, Debug, PartialEq, Eq, Structural)]
pub enum Rotation {
    Bottom,
    Left,
    Top,
    Right,
}

/// The rotation that a level file names: `Top`, `Left` or `Right`; any
/// other name, and no name at all, stands for `Bottom`.
pub open spec fn rotation_named(name: Option<Seq<char>>) -> Rotation {
    match name {
        Some(name) => if name == "Top"@ {
            Rotation::Top
        } else if name == "Left"@ {
            Rotation::Left
        } else if name == "Right"@ {
            Rotation::Right
        } else {
            Rotation::Bottom
        },
        None => Rotation::Bottom,
    }
}

impl Default for Rotation {
    fn default() -> (rotation: Rotation)
        ensures
            rotation == Rotation::Bottom,
    {
        Rotation::Bottom
    }
}

impl Rotation {
    /// The angle by which the sprite is turned about the axis that points
    /// out of the screen, in degrees.
    pub open spec fn angle(self) -> int {
        match self {
            Rotation::Bottom => 0,
            Rotation::Right => 90,
            Rotation::Top => 180,
            Rotation::Left => 270,
        }
    }

    /// Computes `angle`.
    pub fn degrees(&self) -> (degrees: u16)
        ensures
            degrees == self.angle(),
    {
        match self {
            Rotation::Bottom => 0,
            Rotation::Right => 90,
            Rotation::Top => 180,
            Rotation::Left => 270,
        }
    }

    /// Reads the rotation from the name that the level file gives it.
    pub fn from_name(name: Option<&str>) -> (rotation: Rotation)
        ensures
            rotation == rotation_named(
                match name {
                    Some(name) => Some(name@),
                    None => None,
                },
            ),
    {
        match name {
            Some(name) => {
                let name = name.to_owned();
                if name == "Top".to_owned() {
                    Rotation::Top
                } else if name == "Left".to_owned() {
                    Rotation::Left
                } else if name == "Right".to_owned() {
                    Rotation::Right
                } else {
                    Rotation::Bottom
                }
            },
            None => Rotation::Bottom,
        }
    }
}

} // verus!

//! Organisms: the visual bundle an agent is built from, and the random
//! names they carry.

pub mod gene;

use vstd::prelude::*;
use vstd::string::StringExecFns;
use crate::path::WorldPos;
use crate::rng::random_below;

verus! {

/// The spatial bundle of an organism: visible, placed at a world point on
/// the organism layer.
pub struct Organism {
    pub visible: bool,
    pub x: i64,
    pub y: i64,
    pub z: i64,
}

impl Organism {
    /// A fresh organism bundle at the given world point.
    #[must_use]
    pub fn random(pos: WorldPos) -> (r: Self)
        ensures
            r.visible,
            r.x == pos.x,
            r.y == pos.y,
            r.z == 1,
    {
        Organism { visible: true, x: pos.x, y: pos.y, z: 1 }
    }
}

/// Marker for an organism's name label.
pub struct NameTag;

/// A body part.
pub struct Torso;

/// A random name: an optionally prefixed and suffixed first name, a space,
/// and an optionally prefixed and suffixed last name.
#[must_use]
pub fn random_name() -> (r: String)
    ensures
        r@.len() >= 7,
{
    let mut name = String::new();
    let pre1 = random_below(6);
    if pre1 == 0 {
        name.append("Mc");
    } else if pre1 == 1 {
        name.append("El");
    }
    let first = random_below(3);
    if first == 0 {
        proof {
            reveal_strlit("John");
        }
        name.append("John");
    } else if first == 1 {
        proof {
            reveal_strlit("Daniel");
        }
        name.append("Daniel");
    } else {
        proof {
            reveal_strlit("Tom");
        }
        name.append("Tom");
    }
    let suf1 = random_below(7);
    if suf1 == 0 {
        name.append("son");
    } else if suf1 == 1 {
        name.append("y");
    } else if suf1 == 2 {
        name.append("athy");
    }
    proof {
        reveal_strlit(" ");
    }
    name.append(" ");
    let pre2 = random_below(6);
    if pre2 == 0 {
        name.append("Mc");
    } else if pre2 == 1 {
        name.append("El");
    }
    let last = random_below(3);
    if last == 0 {
        proof {
            reveal_strlit("Daniels");
        }
        name.append("Daniels");
    } else if last == 1 {
        proof {
            reveal_strlit("Patrik");
        }
        name.append("Patrik");
    } else {
        proof {
            reveal_strlit("Col");
        }
        name.append("Col");
    }
    let suf2 = random_below(7);
    if suf2 == 0 {
        name.append("son");
    } else if suf2 == 1 {
        name.append("y");
    } else if suf2 == 2 {
        name.append("athy");
    }
    name
}

} // verus!

//! What the renderer and the camera share with the world: the faces of a
//! block and the directions in which a camera moves.

use vstd::prelude::*;

verus! {

/// The faces of a block.
#[derive(Debug, Clone, Copy, PartialEq, Eq, Structural)]
pub enum Face {
    Top,
    Bottom,
    Front,
    Back,
    Left,
    Right,
}

/// The directions in which a camera moves.
#[derive(Debug, Clone, Copy, PartialEq, Eq, Structural)]
pub enum CameraMovement {
    Forward,
    Backward,
    Left,
    Right,
    Up,
    Down,
}

impl Face {
    /// The direction in which the face looks: a step of one block along one axis.
    pub open spec fn outward(self) -> (int, int, int) {
        match self {
            Face::Top => (0, 1, 0),
            Face::Bottom => (0, -1, 0),
            Face::Front => (0, 0, 1),
            Face::Back => (0, 0, -1),
            Face::Left => (-1, 0, 0),
            Face::Right => (1, 0, 0),
        }
    }

    /// The direction in which the face looks.
    pub fn normal(&self) -> (n: [i32; 3])
        ensures
            (n[0] as int, n[1] as int, n[2] as int) == self.outward(),
    {
        match self {
            Face::Top => [0, 1, 0],
            Face::Bottom => [0, -1, 0],
            Face::Front => [0, 0, 1],
            Face::Back => [0, 0, -1],
            Face::Left => [-1, 0, 0],
            Face::Right => [1, 0, 0],
        }
    }

    /// The indices of the two triangles of a face whose four vertices start
    /// at `start_vertex`.
    pub fn indices(&self, start_vertex: u32) -> (r: [u32; 6])
        requires
            start_vertex + 3 <= u32::MAX,
        ensures
            r@ == seq![
                start_vertex,
                (start_vertex + 1) as u32,
                (start_vertex + 2) as u32,
                start_vertex,
                (start_vertex + 2) as u32,
                (start_vertex + 3) as u32,
            ],
    {
        [
            start_vertex,
            start_vertex + 1,
            start_vertex + 2,
            start_vertex,
            start_vertex + 2,
            start_vertex + 3,
        ]
    }

    /// The six faces: top, bottom, front, back, left, right.
    pub fn all() -> (r: [Face; 6])
        ensures
            r@ == seq![Face::Top, Face::Bottom, Face::Front, Face::Back, Face::Left, Face::Right],
    {
        [Face::Top, Face::Bottom, Face::Front, Face::Back, Face::Left, Face::Right]
    }
}

} // verus!

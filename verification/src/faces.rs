//! Face boxes as the face detector reports them: the bounds of each face.
use vstd::prelude::*;

use crate::geometry::Geometry;

verus! {

/// A face box given by its bounds.
#[derive(Debug, Clone, Copy, PartialEq, Eq, Structural)]
pub struct Bbox {
    pub xmin: u32,
    pub xmax: u32,
    pub ymin: u32,
    pub ymax: u32,
}

/// A face box as the detector writes it in its output.
#[derive(Debug, Clone, Copy, PartialEq, Eq, Structural)]
pub struct FaceJson {
    pub xmin: u32,
    pub xmax: u32,
    pub ymin: u32,
    pub ymax: u32,
}

/// A face kept by its bounds.
#[derive(Debug, Clone, Copy, PartialEq, Eq, Structural)]
pub struct Face {
    pub xmin: u32,
    pub xmax: u32,
    pub ymin: u32,
    pub ymax: u32,
}

impl Bbox {
    /// The rectangle of the box: its top left corner and its size.
    pub fn to_face(&self) -> (r: Geometry)
        requires
            self.xmin <= self.xmax,
            self.ymin <= self.ymax,
        ensures
            r == (Geometry {
                x: self.xmin,
                y: self.ymin,
                w: (self.xmax - self.xmin) as u32,
                h: (self.ymax - self.ymin) as u32,
            }),
    {
        Geometry { x: self.xmin, y: self.ymin, w: self.xmax - self.xmin, h: self.ymax - self.ymin }
    }
}

impl FaceJson {
    /// The face with the same bounds.
    pub fn to_face(&self) -> (r: Face)
        ensures
            r == (Face { xmin: self.xmin, xmax: self.xmax, ymin: self.ymin, ymax: self.ymax }),
    {
        Face { xmin: self.xmin, xmax: self.xmax, ymin: self.ymin, ymax: self.ymax }
    }
}

} // verus!

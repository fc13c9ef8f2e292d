use vstd::prelude::*;

verus! {

/// A rectangle of canvas coordinates from `start`, included, to `end`,
/// excluded; its width and height are `end - start`.
#[derive(Debug, Clone, Copy, PartialEq, Eq, Structural)]
pub struct Region {
    x1: u32,
    y1: u32,
    x2: u32,
    y2: u32,
}

/// The corners `x1, y1, x2, y2` named by up to four coordinates; those left
/// out reach to the edge of the coordinate space.
pub open spec fn corners(s: Seq<u32>) -> (u32, u32, u32, u32) {
    (
        s[0],
        if s.len() >= 2 { s[1] } else { 0 },
        if s.len() >= 3 { s[2] } else { u32::MAX },
        if s.len() >= 4 { s[3] } else { u32::MAX },
    )
}

impl Region {
    pub closed spec fn start_spec(&self) -> (u32, u32) {
        (self.x1, self.y1)
    }

    pub closed spec fn end_spec(&self) -> (u32, u32) {
        (self.x2, self.y2)
    }

    /// A region is ordered: its start is at or before its end on both axes.
    pub open spec fn wf(&self) -> bool {
        self.start_spec().0 <= self.end_spec().0 && self.start_spec().1 <= self.end_spec().1
    }

    /// The region from `(x1, y1)` to `(x2, y2)`, or `None` where the start
    /// lies past the end on either axis.
    pub fn new(x1: u32, y1: u32, x2: u32, y2: u32) -> (r: Option<Region>)
        ensures
            r is Some <==> x1 <= x2 && y1 <= y2,
            r matches Some(g) ==> g.start_spec() == (x1, y1) && g.end_spec() == (x2, y2) && g.wf(),
    {
        if x1 <= x2 && y1 <= y2 {
            Some(Region { x1, y1, x2, y2 })
        } else {
            None
        }
    }

    /// The region given by one to four coordinates `x1, y1, x2, y2`; those
    /// left out reach to the edge of the coordinate space. `None` for any
    /// other length, or where the start lies past the end.
    pub fn from_slice(region: &[u32]) -> (r: Option<Region>)
        ensures
            r is Some <==> 1 <= region@.len() <= 4 && corners(region@).0 <= corners(region@).2
                && corners(region@).1 <= corners(region@).3,
            r matches Some(g) ==> g.start_spec() == (corners(region@).0, corners(region@).1)
                && g.end_spec() == (corners(region@).2, corners(region@).3),
    {
        let n = region.len();
        if n == 1 {
            Region::new(region[0], 0, u32::MAX, u32::MAX)
        } else if n == 2 {
            Region::new(region[0], region[1], u32::MAX, u32::MAX)
        } else if n == 3 {
            Region::new(region[0], region[1], region[2], u32::MAX)
        } else if n == 4 {
            Region::new(region[0], region[1], region[2], region[3])
        } else {
            None
        }
    }

    /// The whole coordinate space.
    pub fn all() -> (r: Region)
        ensures
            r.start_spec() == (0u32, 0u32),
            r.end_spec() == (u32::MAX, u32::MAX),
    {
        Region { x1: 0, y1: 0, x2: u32::MAX, y2: u32::MAX }
    }

    /// Whether `(x, y)` lies in the region: at or after its start and before
    /// its end on both axes.
    pub fn contains(&self, x: u32, y: u32) -> (r: bool)
        ensures
            r == (self.start_spec().0 <= x < self.end_spec().0 && self.start_spec().1 <= y
                < self.end_spec().1),
    {
        self.x1 <= x && x < self.x2 && self.y1 <= y && y < self.y2
    }

    pub fn start(&self) -> (r: (u32, u32))
        ensures
            r == self.start_spec(),
    {
        (self.x1, self.y1)
    }

    pub fn end(&self) -> (r: (u32, u32))
        ensures
            r == self.end_spec(),
    {
        (self.x2, self.y2)
    }

    /// `end.x - start.x`.
    pub fn width(&self) -> (r: u32)
        requires
            self.wf(),
        ensures
            r == self.end_spec().0 - self.start_spec().0,
    {
        self.x2 - self.x1
    }

    /// `end.y - start.y`.
    pub fn height(&self) -> (r: u32)
        requires
            self.wf(),
        ensures
            r == self.end_spec().1 - self.start_spec().1,
    {
        self.y2 - self.y1
    }
}

impl Default for Region {
    /// The whole coordinate space.
    fn default() -> (r: Region)
        ensures
            r.start_spec() == (0u32, 0u32),
            r.end_spec() == (u32::MAX, u32::MAX),
    {
        Region::all()
    }
}

} // verus!

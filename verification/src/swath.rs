//! A grid's extent in world space, and the common rectangle of several grids.

use vstd::prelude::*;
use vstd::seq_lib::to_multiset_contains;
use crate::error::Error;
use crate::transform::{pixel_extent, pixel_extent_spec, AffineTransform};
use crate::types::{Point, RealF64};
use crate::value::{round_away_covers_span, unit, whole_numbers_stay};

verus! {

/// A raster grid: its size in pixels, the transform that places it in the
/// world, its projection, and the world positions of its four corners.
///
/// For a grid that stands for a raster, `corners` holds the images under
/// `transform` of the pixel positions `(0, 0)`, `(width, 0)`,
/// `(width, height)` and `(0, height)`, in that order. Whoever builds the
/// grid computes them: the library takes no product or sum of coordinates.
///
/// For a grid that `Frame::complete` gives, `corners` holds the corners of
/// the common rectangle instead, the bounds that the grid was cut to. They
/// are not the images of its pixel corners: where the rectangle ends inside
/// a pixel, that pixel is counted whole, and its outer edge lies beyond the
/// corner held here. The extremes of such a grid are the bounds of the
/// rectangle.
#[derive(Debug, PartialEq, Eq)]
pub struct Swath {
    pub width: isize,
    pub height: isize,
    pub transform: AffineTransform,
    pub projection: String,
    pub corners: [Point; 4],
}

/// The rectangle common to a list of grids, before its size in pixels is
/// known: the transform of the output grid, the world point that its last
/// pixel must reach, and its projection.
#[derive(Debug, PartialEq, Eq)]
pub struct Frame {
    pub transform: AffineTransform,
    pub far_corner: Point,
    pub projection: String,
}

/// The latest value of a sequence in the total order; of several that tie,
/// the last.
pub open spec fn greatest(s: Seq<RealF64>) -> RealF64
    decreases s.len(),
{
    if s.len() == 0 {
        RealF64 { bits: 0 }
    } else if s.len() == 1 {
        s[0]
    } else {
        greatest(s.drop_last()).max(s.last())
    }
}

/// The earliest value of a sequence in the total order; of several that
/// tie, the first.
pub open spec fn least(s: Seq<RealF64>) -> RealF64
    decreases s.len(),
{
    if s.len() == 0 {
        RealF64 { bits: 0 }
    } else if s.len() == 1 {
        s[0]
    } else {
        least(s.drop_last()).min(s.last())
    }
}

/// The left extreme of each grid of a list.
pub open spec fn lefts(s: Seq<Swath>) -> Seq<RealF64> {
    Seq::new(s.len(), |i: int| s[i].left_extreme())
}

/// The right extreme of each grid of a list.
pub open spec fn rights(s: Seq<Swath>) -> Seq<RealF64> {
    Seq::new(s.len(), |i: int| s[i].right_extreme())
}

/// The bottom extreme of each grid of a list.
pub open spec fn bottoms(s: Seq<Swath>) -> Seq<RealF64> {
    Seq::new(s.len(), |i: int| s[i].bottom_extreme())
}

/// The top extreme of each grid of a list.
pub open spec fn tops(s: Seq<Swath>) -> Seq<RealF64> {
    Seq::new(s.len(), |i: int| s[i].top_extreme())
}

/// What `intersection` returns.
///
/// The rectangle runs from the rightmost left extreme to the leftmost right
/// extreme, and from the highest bottom extreme to the lowest top extreme.
/// Pixel size, rotation and projection are those of the first grid.
pub open spec fn intersection_spec(s: Seq<Swath>) -> Result<Frame, Error> {
    if s.len() == 0 {
        Err(Error::EmptyInput)
    } else {
        let left = greatest(lefts(s));
        let right = least(rights(s));
        let bottom = greatest(bottoms(s));
        let top = least(tops(s));
        if left.rank() > right.rank() || bottom.rank() > top.rank() {
            Err(Error::NoIntersection)
        } else {
            Ok(
                Frame {
                    transform: s[0].transform.with_origin(Point { x: left, y: top }),
                    far_corner: Point { x: right, y: bottom },
                    projection: s[0].projection,
                },
            )
        }
    }
}

impl Swath {
    /// What holds of every grid that stands for a raster: it has a width and
    /// a height, its transform can be inverted, its corners are finite
    /// numbers, and its first corner is the origin of its transform.
    pub open spec fn well_formed(self) -> bool {
        &&& self.width != 0
        &&& self.height != 0
        &&& self.transform.is_invertible()
        &&& forall|k: int|
            0 <= k < 4 ==> (#[trigger] self.corners[k]).x.is_finite() && self.corners[k].y.is_finite()
        &&& self.corners[0].x.same_number(&self.transform.a)
        &&& self.corners[0].y.same_number(&self.transform.d)
    }

    /// A grid of the given parts; nothing is checked.
    pub fn new(
        width: isize,
        height: isize,
        transform: AffineTransform,
        projection: String,
        corners: [Point; 4],
    ) -> (r: Swath)
        ensures
            r == (Swath { width, height, transform, projection, corners }),
    {
        Swath { width, height, transform, projection, corners }
    }

    /// True if the grid is well formed.
    pub fn is_well_formed(&self) -> (r: bool)
        ensures
            r == self.well_formed(),
    {
        if self.width == 0 || self.height == 0 || !self.transform.is_invertible() {
            return false;
        }
        let mut k: usize = 0;
        while k < 4
            invariant
                k <= 4,
                forall|j: int|
                    0 <= j < k ==> (#[trigger] self.corners[j]).x.is_finite()
                        && self.corners[j].y.is_finite(),
            decreases 4 - k,
        {
            if !self.corners[k].x.finite() || !self.corners[k].y.finite() {
                return false;
            }
            k += 1;
        }
        self.corners[0].x.same_number(&self.transform.a) && self.corners[0].y.same_number(
            &self.transform.d,
        )
    }

    /// The smallest world X among the corners.
    pub open spec fn spec_left_extreme(&self) -> RealF64 {
        self.corners[0].x.min(self.corners[1].x).min(self.corners[2].x).min(self.corners[3].x)
    }

    /// The largest world X among the corners.
    pub open spec fn spec_right_extreme(&self) -> RealF64 {
        self.corners[0].x.max(self.corners[1].x).max(self.corners[2].x).max(self.corners[3].x)
    }

    /// The smallest world Y among the corners.
    pub open spec fn spec_bottom_extreme(&self) -> RealF64 {
        self.corners[0].y.min(self.corners[1].y).min(self.corners[2].y).min(self.corners[3].y)
    }

    /// The largest world Y among the corners.
    pub open spec fn spec_top_extreme(&self) -> RealF64 {
        self.corners[0].y.max(self.corners[1].y).max(self.corners[2].y).max(self.corners[3].y)
    }

    /// The smallest world X among the corners.
    #[verifier::when_used_as_spec(spec_left_extreme)]
    pub fn left_extreme(&self) -> (r: RealF64)
        ensures
            r == self.spec_left_extreme(),
    {
        self.corners[0].x.min(self.corners[1].x).min(self.corners[2].x).min(self.corners[3].x)
    }

    /// The largest world X among the corners.
    #[verifier::when_used_as_spec(spec_right_extreme)]
    pub fn right_extreme(&self) -> (r: RealF64)
        ensures
            r == self.spec_right_extreme(),
    {
        self.corners[0].x.max(self.corners[1].x).max(self.corners[2].x).max(self.corners[3].x)
    }

    /// The smallest world Y among the corners.
    #[verifier::when_used_as_spec(spec_bottom_extreme)]
    pub fn bottom_extreme(&self) -> (r: RealF64)
        ensures
            r == self.spec_bottom_extreme(),
    {
        self.corners[0].y.min(self.corners[1].y).min(self.corners[2].y).min(self.corners[3].y)
    }

    /// The largest world Y among the corners.
    #[verifier::when_used_as_spec(spec_top_extreme)]
    pub fn top_extreme(&self) -> (r: RealF64)
        ensures
            r == self.spec_top_extreme(),
    {
        self.corners[0].y.max(self.corners[1].y).max(self.corners[2].y).max(self.corners[3].y)
    }
}

fn greatest_of(values: &Vec<RealF64>) -> (r: RealF64)
    requires
        values.len() > 0,
    ensures
        r == greatest(values@),
{
    let mut best: RealF64 = values[0];
    let mut i: usize = 1;
    assert(values@.take(1) =~= seq![values@[0]]);
    while i < values.len()
        invariant
            1 <= i <= values.len(),
            best == greatest(values@.take(i as int)),
        decreases values.len() - i,
    {
        assert(values@.take(i + 1).drop_last() =~= values@.take(i as int));
        best = best.max(values[i]);
        i += 1;
    }
    assert(values@.take(i as int) =~= values@);
    best
}

fn least_of(values: &Vec<RealF64>) -> (r: RealF64)
    requires
        values.len() > 0,
    ensures
        r == least(values@),
{
    let mut best: RealF64 = values[0];
    let mut i: usize = 1;
    assert(values@.take(1) =~= seq![values@[0]]);
    while i < values.len()
        invariant
            1 <= i <= values.len(),
            best == least(values@.take(i as int)),
        decreases values.len() - i,
    {
        assert(values@.take(i + 1).drop_last() =~= values@.take(i as int));
        best = best.min(values[i]);
        i += 1;
    }
    assert(values@.take(i as int) =~= values@);
    best
}

/// The rectangle common to all the grids, laid out on the first grid's
/// lattice.
///
/// Fails with `EmptyInput` on an empty list, and with `NoIntersection` if
/// the left bound lies beyond the right one or the bottom bound above the top
/// one. The grids are taken to share one lattice; that is not checked here.
pub fn intersection(swaths: &Vec<Swath>) -> (r: Result<Frame, Error>)
    ensures
        r == intersection_spec(swaths@),
{
    if swaths.len() == 0 {
        return Err(Error::EmptyInput);
    }
    let mut left: Vec<RealF64> = Vec::new();
    let mut right: Vec<RealF64> = Vec::new();
    let mut bottom: Vec<RealF64> = Vec::new();
    let mut top: Vec<RealF64> = Vec::new();
    let mut i: usize = 0;
    while i < swaths.len()
        invariant
            i <= swaths.len(),
            left@ =~= lefts(swaths@.take(i as int)),
            right@ =~= rights(swaths@.take(i as int)),
            bottom@ =~= bottoms(swaths@.take(i as int)),
            top@ =~= tops(swaths@.take(i as int)),
        decreases swaths.len() - i,
    {
        left.push(swaths[i].left_extreme());
        right.push(swaths[i].right_extreme());
        bottom.push(swaths[i].bottom_extreme());
        top.push(swaths[i].top_extreme());
        i += 1;
    }
    assert(swaths@.take(i as int) =~= swaths@);
    let rightmost_left = greatest_of(&left);
    let leftmost_right = least_of(&right);
    let upper_bottom = greatest_of(&bottom);
    let lower_top = least_of(&top);
    if rightmost_left.gt(&leftmost_right) || upper_bottom.gt(&lower_top) {
        Err(Error::NoIntersection)
    } else {
        let first = &swaths[0];
        Ok(
            Frame {
                transform: first.transform.with_origin(
                    Point { x: rightmost_left, y: lower_top },
                ),
                far_corner: Point { x: leftmost_right, y: upper_bottom },
                projection: first.projection.clone(),
            },
        )
    }
}

impl Frame {
    /// The four corners of the rectangle: upper left, upper right, lower
    /// right, lower left. The first is the origin of `transform`, the third
    /// is `far_corner`.
    pub open spec fn corners(self) -> [Point; 4] {
        [
            Point { x: self.transform.a, y: self.transform.d },
            Point { x: self.far_corner.x, y: self.transform.d },
            Point { x: self.far_corner.x, y: self.far_corner.y },
            Point { x: self.transform.a, y: self.far_corner.y },
        ]
    }

    /// What `complete` returns.
    pub open spec fn complete_spec(self, far_pixel: Point) -> Result<Swath, Error> {
        if !self.transform.is_invertible() || !far_pixel.x.is_finite() || !far_pixel.y.is_finite() {
            Err(Error::SingularTransform)
        } else {
            let size = pixel_extent_spec(far_pixel);
            if size.0 == 0 || size.1 == 0 {
                Err(Error::NoIntersection)
            } else {
                Ok(
                    Swath {
                        width: size.0,
                        height: size.1,
                        transform: self.transform,
                        projection: self.projection,
                        corners: self.corners(),
                    },
                )
            }
        }
    }

    /// Turns the rectangle into a grid, given `far_pixel`: the position of
    /// `far_corner` in pixels, that is, `far_corner` taken back through
    /// `transform`.
    ///
    /// The grid is as wide and as high as it takes to cover `far_pixel`.
    /// Its `corners` are those of the rectangle, not the images of its pixel
    /// corners: the edge of a partly covered last pixel lies beyond them.
    /// Fails with `SingularTransform` if `transform` cannot be inverted or
    /// `far_pixel` is not finite, and with `NoIntersection` if the grid would
    /// have no width or no height.
    pub fn complete(self, far_pixel: Point) -> (r: Result<Swath, Error>)
        ensures
            r == self.complete_spec(far_pixel),
    {
        if !self.transform.is_invertible() || !far_pixel.x.finite() || !far_pixel.y.finite() {
            return Err(Error::SingularTransform);
        }
        let (width, height) = pixel_extent(far_pixel);
        if width == 0 || height == 0 {
            return Err(Error::NoIntersection);
        }
        let corners: [Point; 4] = [
            Point { x: self.transform.a, y: self.transform.d },
            Point { x: self.far_corner.x, y: self.transform.d },
            Point { x: self.far_corner.x, y: self.far_corner.y },
            Point { x: self.transform.a, y: self.far_corner.y },
        ];
        Ok(
            Swath {
                width,
                height,
                transform: self.transform,
                projection: self.projection,
                corners,
            },
        )
    }
}

/// The part of a band to read: the pixel at which to start, and how many
/// pixels to take along each axis.
#[derive(Clone, Copy, Debug, PartialEq, Eq)]
pub struct Window {
    pub offset: (isize, isize),
    pub size: (usize, usize),
}

/// How many pixels a signed pixel count stands for: its magnitude.
pub open spec fn spec_pixel_count(n: isize) -> usize {
    if n >= 0 {
        n as usize
    } else {
        (-n) as usize
    }
}

/// How many pixels a signed pixel count stands for: its magnitude.
#[verifier::when_used_as_spec(spec_pixel_count)]
pub fn pixel_count(n: isize) -> (r: usize)
    ensures
        r == spec_pixel_count(n),
{
    if n >= 0 {
        n as usize
    } else {
        (-(n + 1)) as usize + 1
    }
}

/// What `extract` returns.
pub open spec fn extract_spec(swath: Swath, band: AffineTransform, origin_pixel: Point) -> Result<
    Window,
    Error,
> {
    if !band.is_invertible() || !origin_pixel.x.is_finite() || !origin_pixel.y.is_finite() {
        Err(Error::SingularTransform)
    } else {
        Ok(
            Window {
                offset: (origin_pixel.x.truncate(), origin_pixel.y.truncate()),
                size: (pixel_count(swath.width), pixel_count(swath.height)),
            },
        )
    }
}

/// The window of a band that falls under `swath`, given the transform of
/// the band and `origin_pixel`: the origin of `swath` in pixels of the band,
/// that is, the world point `(swath.transform.a, swath.transform.d)` taken
/// back through `band`.
///
/// The window starts at `origin_pixel` cut to whole pixels and has the size
/// of `swath`; the band is read at its own resolution. Fails with
/// `SingularTransform` if `band` cannot be inverted or `origin_pixel` is not
/// finite.
pub fn extract(swath: &Swath, band: &AffineTransform, origin_pixel: Point) -> (r: Result<
    Window,
    Error,
>)
    ensures
        r == extract_spec(*swath, *band, origin_pixel),
{
    if !band.is_invertible() || !origin_pixel.x.finite() || !origin_pixel.y.finite() {
        return Err(Error::SingularTransform);
    }
    Ok(
        Window {
            offset: (origin_pixel.x.truncate(), origin_pixel.y.truncate()),
            size: (pixel_count(swath.width), pixel_count(swath.height)),
        },
    )
}

/// `greatest(s)` is a member of `s`, and no member of `s` comes after it.
pub proof fn greatest_is_last(s: Seq<RealF64>)
    requires
        s.len() > 0,
    ensures
        s.contains(greatest(s)),
        forall|i: int| 0 <= i < s.len() ==> (#[trigger] s[i]).rank() <= greatest(s).rank(),
    decreases s.len(),
{
    if s.len() > 1 {
        let front = s.drop_last();
        greatest_is_last(front);
        let k = choose|k: int| 0 <= k < front.len() && front[k] == greatest(front);
        assert(s[k] == greatest(front));
        assert(s[s.len() - 1] == s.last());
        assert forall|i: int| 0 <= i < s.len() implies (#[trigger] s[i]).rank() <= greatest(
            s,
        ).rank() by {
            if i < s.len() - 1 {
                assert(front[i] == s[i]);
            }
        }
    }
}

/// `least(s)` is a member of `s`, and no member of `s` comes before it.
pub proof fn least_is_first(s: Seq<RealF64>)
    requires
        s.len() > 0,
    ensures
        s.contains(least(s)),
        forall|i: int| 0 <= i < s.len() ==> (#[trigger] s[i]).rank() >= least(s).rank(),
    decreases s.len(),
{
    if s.len() > 1 {
        let front = s.drop_last();
        least_is_first(front);
        let k = choose|k: int| 0 <= k < front.len() && front[k] == least(front);
        assert(s[k] == least(front));
        assert(s[s.len() - 1] == s.last());
        assert forall|i: int| 0 <= i < s.len() implies (#[trigger] s[i]).rank() >= least(
            s,
        ).rank() by {
            if i < s.len() - 1 {
                assert(front[i] == s[i]);
            }
        }
    }
}

/// Two lists with the same members have greatest members that tie, and
/// least members that tie.
proof fn lemma_same_members(a: Seq<RealF64>, b: Seq<RealF64>)
    requires
        a.len() > 0,
        b.len() > 0,
        forall|i: int| 0 <= i < a.len() ==> b.contains(#[trigger] a[i]),
        forall|j: int| 0 <= j < b.len() ==> a.contains(#[trigger] b[j]),
    ensures
        greatest(a).ties(greatest(b)),
        least(a).ties(least(b)),
{
    greatest_is_last(a);
    greatest_is_last(b);
    least_is_first(a);
    least_is_first(b);
    let ia = choose|i: int| 0 <= i < a.len() && a[i] == greatest(a);
    let ib = choose|i: int| 0 <= i < b.len() && b[i] == greatest(b);
    assert(b.contains(a[ia]));
    assert(a.contains(b[ib]));
    let ja = choose|j: int| 0 <= j < b.len() && b[j] == a[ia];
    let jb = choose|j: int| 0 <= j < a.len() && a[j] == b[ib];
    assert(b[ja].rank() <= greatest(b).rank());
    assert(a[jb].rank() <= greatest(a).rank());
    let la = choose|i: int| 0 <= i < a.len() && a[i] == least(a);
    let lb = choose|i: int| 0 <= i < b.len() && b[i] == least(b);
    assert(b.contains(a[la]));
    assert(a.contains(b[lb]));
    let ka = choose|j: int| 0 <= j < b.len() && b[j] == a[la];
    let kb = choose|j: int| 0 <= j < a.len() && a[j] == b[lb];
    assert(b[ka].rank() >= least(b).rank());
    assert(a[kb].rank() >= least(a).rank());
}

/// The extremes of a grid bound its corners: no corner lies left of the
/// left extreme, right of the right one, below the bottom one or above the
/// top one.
pub proof fn extremes_bound_corners(g: Swath, k: int)
    requires
        0 <= k < 4,
    ensures
        g.left_extreme().rank() <= g.corners[k].x.rank() <= g.right_extreme().rank(),
        g.bottom_extreme().rank() <= g.corners[k].y.rank() <= g.top_extreme().rank(),
{
}

/// A grid alone is its own intersection. If the transform of the grid can
/// be inverted, its origin is its upper left corner, and its far corner lies
/// exactly `width` and `height` pixels from the origin, then the intersection
/// of the list that holds only this grid has the grid's width, height,
/// transform and projection.
pub proof fn intersection_of_one_grid(g: Swath, far_pixel: Point)
    requires
        g.width != 0,
        g.height != 0,
        g.transform.is_invertible(),
        g.transform.origin() == (Point { x: g.left_extreme(), y: g.top_extreme() }),
        far_pixel.x.represents(g.width as int),
        far_pixel.y.represents(g.height as int),
    ensures
        ({
            &&& intersection_spec(seq![g]) matches Ok(frame)
            &&& frame.transform == g.transform
            &&& frame.far_corner == (Point { x: g.right_extreme(), y: g.bottom_extreme() })
            &&& frame.complete_spec(far_pixel) matches Ok(out)
            &&& out.width == g.width
            &&& out.height == g.height
            &&& out.transform == g.transform
            &&& out.projection == g.projection
        }),
{
    let s = seq![g];
    extremes_bound_corners(g, 0);
    assert(lefts(s)[0] == g.left_extreme());
    assert(rights(s)[0] == g.right_extreme());
    assert(bottoms(s)[0] == g.bottom_extreme());
    assert(tops(s)[0] == g.top_extreme());
    whole_numbers_stay(far_pixel.x, g.width as int);
    whole_numbers_stay(far_pixel.y, g.height as int);
}

/// On a lattice without rotation, the size that `pixel_extent` gives is the
/// rectangle's width over the pixel width and its height over the pixel
/// height, each rounded away from zero: that many pixels cover the rectangle,
/// and one fewer does not. A count has the sign of its direction: the width
/// is negative where columns run to the left, the height where rows run
/// upwards. This holds where `far_pixel` is the exact quotient; what rounding
/// in the division may add is not covered. Where the rectangle has no width
/// or no height the count is 0, and `complete` gives no grid.
pub proof fn axis_aligned_size_covers_rectangle(frame: Frame, far_pixel: Point)
    requires
        frame.transform.is_finite(),
        frame.far_corner.x.is_finite(),
        frame.far_corner.y.is_finite(),
        frame.transform.c.scaled() == 0,
        frame.transform.e.scaled() == 0,
        frame.transform.b.scaled() != 0,
        frame.transform.f.scaled() != 0,
        frame.transform.a.scaled() <= frame.far_corner.x.scaled(),
        frame.far_corner.y.scaled() <= frame.transform.d.scaled(),
        far_pixel.x.is_finite(),
        far_pixel.y.is_finite(),
        far_pixel.x.whole_part() < isize::MAX,
        far_pixel.y.whole_part() < isize::MAX,
        far_pixel.x.scaled() * frame.transform.b.scaled() == (frame.far_corner.x.scaled()
            - frame.transform.a.scaled()) * unit(),
        far_pixel.y.scaled() * (-frame.transform.f.scaled()) == (frame.transform.d.scaled()
            - frame.far_corner.y.scaled()) * unit(),
    ensures
        ({
            let size = pixel_extent_spec(far_pixel);
            let across = frame.far_corner.x.scaled() - frame.transform.a.scaled();
            let down = frame.transform.d.scaled() - frame.far_corner.y.scaled();
            let wide = frame.transform.b.scaled();
            let high = -frame.transform.f.scaled();
            &&& wide > 0 ==> (size.0 - 1) * wide < across <= size.0 * wide
            &&& wide < 0 ==> (size.0 + 1) * wide < across <= size.0 * wide
            &&& high > 0 ==> (size.1 - 1) * high < down <= size.1 * high
            &&& high < 0 ==> (size.1 + 1) * high < down <= size.1 * high
        }),
{
    round_away_covers_span(
        far_pixel.x,
        frame.far_corner.x.scaled() - frame.transform.a.scaled(),
        frame.transform.b.scaled(),
    );
    round_away_covers_span(
        far_pixel.y,
        frame.transform.d.scaled() - frame.far_corner.y.scaled(),
        -frame.transform.f.scaled(),
    );
}

/// The common rectangle does not depend on the order of the grids. Two lists
/// that hold the same grids in any order fail alike or succeed alike, with
/// the same four bounds: origins that tie and far corners that tie, so equal
/// as numbers. Pixel size, rotation and projection are taken from the first
/// grid of each list, so the two results agree in them where the two first
/// grids do. Where they agree in pixel size and rotation, the two results,
/// completed with the same pixel position of the far corner, fail alike or
/// give grids of the same width and height, with corners that tie.
pub proof fn intersection_ignores_order(s1: Seq<Swath>, s2: Seq<Swath>)
    requires
        s1.to_multiset() == s2.to_multiset(),
    ensures
        match (intersection_spec(s1), intersection_spec(s2)) {
            (Ok(f1), Ok(f2)) => {
                &&& f1.far_corner.ties(f2.far_corner)
                &&& f1.transform.origin().ties(f2.transform.origin())
                &&& s1[0].projection == s2[0].projection ==> f1.projection == f2.projection
                &&& s1[0].transform.same_spacing(&s2[0].transform) ==> {
                    &&& f1.transform.same_spacing(&f2.transform)
                    &&& forall|far_pixel: Point|
                        match (
                            #[trigger] f1.complete_spec(far_pixel),
                            #[trigger] f2.complete_spec(far_pixel),
                        ) {
                            (Ok(g1), Ok(g2)) => {
                                &&& g1.width == g2.width
                                &&& g1.height == g2.height
                                &&& forall|k: int|
                                    0 <= k < 4 ==> (#[trigger] g1.corners[k]).ties(g2.corners[k])
                            },
                            (Err(e1), Err(e2)) => e1 == e2,
                            _ => false,
                        }
                }
            },
            (Err(e1), Err(e2)) => e1 == e2,
            _ => false,
        },
{
    vstd::seq_lib::to_multiset_len(s1);
    vstd::seq_lib::to_multiset_len(s2);
    if s1.len() > 0 {
        assert forall|i: int| 0 <= i < s1.len() implies s2.contains(#[trigger] s1[i]) by {
            to_multiset_contains(s1, s1[i]);
            to_multiset_contains(s2, s1[i]);
        }
        assert forall|j: int| 0 <= j < s2.len() implies s1.contains(#[trigger] s2[j]) by {
            to_multiset_contains(s1, s2[j]);
            to_multiset_contains(s2, s2[j]);
        }
        lemma_same_extremes(s1, s2);
        lemma_same_extremes(s2, s1);
        lemma_same_members(lefts(s1), lefts(s2));
        lemma_same_members(rights(s1), rights(s2));
        lemma_same_members(bottoms(s1), bottoms(s2));
        lemma_same_members(tops(s1), tops(s2));
        if intersection_spec(s1) is Ok && s1[0].transform.same_spacing(&s2[0].transform) {
            let f1 = intersection_spec(s1)->Ok_0;
            let f2 = intersection_spec(s2)->Ok_0;
            assert forall|far_pixel: Point|
                match (
                    #[trigger] f1.complete_spec(far_pixel),
                    #[trigger] f2.complete_spec(far_pixel),
                ) {
                    (Ok(g1), Ok(g2)) => {
                        &&& g1.width == g2.width
                        &&& g1.height == g2.height
                        &&& forall|k: int|
                            0 <= k < 4 ==> (#[trigger] g1.corners[k]).ties(g2.corners[k])
                    },
                    (Err(e1), Err(e2)) => e1 == e2,
                    _ => false,
                } by {
                lemma_completed_alike(f1, f2, far_pixel);
            }
        }
    }
}

/// Two rectangles with the same pixel size and rotation, whose bounds tie,
/// are completed alike.
proof fn lemma_completed_alike(f1: Frame, f2: Frame, far_pixel: Point)
    requires
        f1.far_corner.ties(f2.far_corner),
        f1.transform.origin().ties(f2.transform.origin()),
        f1.transform.same_spacing(&f2.transform),
    ensures
        match (f1.complete_spec(far_pixel), f2.complete_spec(far_pixel)) {
            (Ok(g1), Ok(g2)) => {
                &&& g1.width == g2.width
                &&& g1.height == g2.height
                &&& forall|k: int| 0 <= k < 4 ==> (#[trigger] g1.corners[k]).ties(g2.corners[k])
            },
            (Err(e1), Err(e2)) => e1 == e2,
            _ => false,
        },
{
    assert(f1.transform.a.is_finite() == f2.transform.a.is_finite());
    assert(f1.transform.d.is_finite() == f2.transform.d.is_finite());
    assert(f1.transform.is_invertible() == f2.transform.is_invertible());
    if f1.complete_spec(far_pixel) is Ok {
        let g1 = f1.complete_spec(far_pixel)->Ok_0;
        let g2 = f2.complete_spec(far_pixel)->Ok_0;
        assert(g1.corners[0] == (Point { x: f1.transform.a, y: f1.transform.d }));
        assert(g1.corners[1] == (Point { x: f1.far_corner.x, y: f1.transform.d }));
        assert(g1.corners[2] == (Point { x: f1.far_corner.x, y: f1.far_corner.y }));
        assert(g1.corners[3] == (Point { x: f1.transform.a, y: f1.far_corner.y }));
        assert(g2.corners[0] == (Point { x: f2.transform.a, y: f2.transform.d }));
        assert(g2.corners[1] == (Point { x: f2.far_corner.x, y: f2.transform.d }));
        assert(g2.corners[2] == (Point { x: f2.far_corner.x, y: f2.far_corner.y }));
        assert(g2.corners[3] == (Point { x: f2.transform.a, y: f2.far_corner.y }));
    }
}

/// Each extreme of a grid of `a` is an extreme of a grid of `b`, if each
/// grid of `a` is a grid of `b`.
proof fn lemma_same_extremes(a: Seq<Swath>, b: Seq<Swath>)
    requires
        forall|i: int| 0 <= i < a.len() ==> b.contains(#[trigger] a[i]),
    ensures
        forall|i: int| 0 <= i < a.len() ==> lefts(b).contains(#[trigger] lefts(a)[i]),
        forall|i: int| 0 <= i < a.len() ==> rights(b).contains(#[trigger] rights(a)[i]),
        forall|i: int| 0 <= i < a.len() ==> bottoms(b).contains(#[trigger] bottoms(a)[i]),
        forall|i: int| 0 <= i < a.len() ==> tops(b).contains(#[trigger] tops(a)[i]),
{
    assert forall|i: int| 0 <= i < a.len() implies lefts(b).contains(#[trigger] lefts(a)[i]) by {
        let j = choose|j: int| 0 <= j < b.len() && b[j] == a[i];
        assert(lefts(b)[j] == lefts(a)[i]);
    }
    assert forall|i: int| 0 <= i < a.len() implies rights(b).contains(#[trigger] rights(a)[i]) by {
        let j = choose|j: int| 0 <= j < b.len() && b[j] == a[i];
        assert(rights(b)[j] == rights(a)[i]);
    }
    assert forall|i: int| 0 <= i < a.len() implies bottoms(b).contains(
        #[trigger] bottoms(a)[i],
    ) by {
        let j = choose|j: int| 0 <= j < b.len() && b[j] == a[i];
        assert(bottoms(b)[j] == bottoms(a)[i]);
    }
    assert forall|i: int| 0 <= i < a.len() implies tops(b).contains(#[trigger] tops(a)[i]) by {
        let j = choose|j: int| 0 <= j < b.len() && b[j] == a[i];
        assert(tops(b)[j] == tops(a)[i]);
    }
}

/// Grids that do not overlap have no intersection: if one grid of the list
/// lies wholly to the left of another, or wholly below it, `intersection`
/// fails with `NoIntersection`.
pub proof fn disjoint_grids_do_not_intersect(s: Seq<Swath>, i: int, j: int)
    requires
        0 <= i < s.len(),
        0 <= j < s.len(),
        s[i].right_extreme().rank() < s[j].left_extreme().rank() || s[i].top_extreme().rank()
            < s[j].bottom_extreme().rank(),
    ensures
        intersection_spec(s) == Err::<Frame, Error>(Error::NoIntersection),
{
    greatest_is_last(lefts(s));
    least_is_first(rights(s));
    greatest_is_last(bottoms(s));
    least_is_first(tops(s));
    assert(lefts(s)[j] == s[j].left_extreme());
    assert(rights(s)[i] == s[i].right_extreme());
    assert(bottoms(s)[j] == s[j].bottom_extreme());
    assert(tops(s)[i] == s[i].top_extreme());
}

/// The intersection of well-formed grids is a well-formed grid.
pub proof fn intersection_is_well_formed(s: Seq<Swath>, far_pixel: Point)
    requires
        forall|i: int| 0 <= i < s.len() ==> (#[trigger] s[i]).well_formed(),
        intersection_spec(s) is Ok,
        intersection_spec(s)->Ok_0.complete_spec(far_pixel) is Ok,
    ensures
        intersection_spec(s)->Ok_0.complete_spec(far_pixel)->Ok_0.well_formed(),
{
    let frame = intersection_spec(s)->Ok_0;
    let out = frame.complete_spec(far_pixel)->Ok_0;
    greatest_is_last(lefts(s));
    least_is_first(rights(s));
    greatest_is_last(bottoms(s));
    least_is_first(tops(s));
    let l = choose|i: int| 0 <= i < s.len() && lefts(s)[i] == greatest(lefts(s));
    let r = choose|i: int| 0 <= i < s.len() && rights(s)[i] == least(rights(s));
    let b = choose|i: int| 0 <= i < s.len() && bottoms(s)[i] == greatest(bottoms(s));
    let t = choose|i: int| 0 <= i < s.len() && tops(s)[i] == least(tops(s));
    assert(s[l].well_formed() && s[r].well_formed() && s[b].well_formed() && s[t].well_formed());
    assert(s[0].well_formed());
    assert(s[l].corners[0].x.is_finite() && s[l].corners[1].x.is_finite()
        && s[l].corners[2].x.is_finite() && s[l].corners[3].x.is_finite());
    assert(s[r].corners[0].x.is_finite() && s[r].corners[1].x.is_finite()
        && s[r].corners[2].x.is_finite() && s[r].corners[3].x.is_finite());
    assert(s[b].corners[0].y.is_finite() && s[b].corners[1].y.is_finite()
        && s[b].corners[2].y.is_finite() && s[b].corners[3].y.is_finite());
    assert(s[t].corners[0].y.is_finite() && s[t].corners[1].y.is_finite()
        && s[t].corners[2].y.is_finite() && s[t].corners[3].y.is_finite());
    assert(out.corners[0] == (Point { x: frame.transform.a, y: frame.transform.d }));
    assert(out.corners[1] == (Point { x: frame.far_corner.x, y: frame.transform.d }));
    assert(out.corners[2] == (Point { x: frame.far_corner.x, y: frame.far_corner.y }));
    assert(out.corners[3] == (Point { x: frame.transform.a, y: frame.far_corner.y }));
}

} // verus!

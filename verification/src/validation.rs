//! Checks that grids can be combined without resampling: one projection,
//! one pixel lattice.

use vstd::prelude::*;
use crate::error::Error;
use crate::transform::AffineTransform;
use crate::types::Point;

verus! {

/// True if no two members of a list differ.
pub open spec fn all_same_spec(things: Seq<String>) -> bool {
    forall|i: int, j: int|
        0 <= i < things.len() && 0 <= j < things.len() ==> (#[trigger] things[i])@ == (
        #[trigger] things[j])@
}

/// True if no two members of the list differ; so it is for an empty list and
/// for a list of one.
pub fn all_same(things: &Vec<String>) -> (r: bool)
    ensures
        r == all_same_spec(things@),
{
    let mut i: usize = 1;
    while i < things.len()
        invariant
            1 <= i,
            forall|k: int| 0 <= k < i && k < things.len() ==> (#[trigger] things@[k])@ == things@[0]@,
        decreases things.len() - i,
    {
        if things[i - 1] != things[i] {
            return false;
        }
        i += 1;
    }
    true
}

/// Accepts the projection identifiers of a list of grids if they are all the
/// same text, character for character; fails with `ProjectionMismatch`
/// otherwise.
pub fn have_same_projection(projections: &Vec<String>) -> (r: Result<(), Error>)
    ensures
        all_same_spec(projections@) ==> r == Ok::<(), Error>(()),
        !all_same_spec(projections@) ==> r == Err::<(), Error>(Error::ProjectionMismatch),
{
    if all_same(projections) {
        Ok(())
    } else {
        Err(Error::ProjectionMismatch)
    }
}

/// What `gt_compatible` returns.
pub open spec fn gt_compatible_spec(
    gt1: AffineTransform,
    gt2: AffineTransform,
    offset: Point,
) -> Result<(), Error> {
    if !gt1.same_spacing(&gt2) {
        Err(Error::SpacingMismatch)
    } else if !gt1.is_invertible() || !offset.x.is_finite() || !offset.y.is_finite() {
        Err(Error::SingularTransform)
    } else if !offset.x.is_whole() || !offset.y.is_whole() {
        Err(Error::OffsetMisaligned)
    } else {
        Ok(())
    }
}

/// Decides whether two grids sample the same pixel lattice, given `offset`:
/// the origin of the second grid in pixels of the first, that is, the world
/// point `(gt2.a, gt2.d)` taken back through `gt1`.
///
/// Fails with `SpacingMismatch` unless pixel size and rotation agree bit for
/// bit, then with `SingularTransform` if `gt1` cannot be inverted or `offset`
/// is not finite, then with `OffsetMisaligned` unless both coordinates of
/// `offset` are whole numbers.
pub fn gt_compatible(gt1: &AffineTransform, gt2: &AffineTransform, offset: Point) -> (r: Result<
    (),
    Error,
>)
    ensures
        r == gt_compatible_spec(*gt1, *gt2, offset),
{
    if !gt1.same_spacing(gt2) {
        return Err(Error::SpacingMismatch);
    }
    if !gt1.is_invertible() || !offset.x.finite() || !offset.y.finite() {
        return Err(Error::SingularTransform);
    }
    if !offset.x.is_whole() || !offset.y.is_whole() {
        return Err(Error::OffsetMisaligned);
    }
    Ok(())
}

/// The verdict on the neighbouring pairs from index `from` on: the failure
/// of the first pair that fails, or `Ok` if none does.
pub open spec fn scan_pairs(
    transforms: Seq<AffineTransform>,
    offsets: Seq<Point>,
    from: int,
) -> Result<(), Error>
    decreases transforms.len() - from,
{
    if from < 0 || from + 1 >= transforms.len() {
        Ok(())
    } else {
        match gt_compatible_spec(transforms[from], transforms[from + 1], offsets[from]) {
            Err(e) => Err(e),
            Ok(_) => scan_pairs(transforms, offsets, from + 1),
        }
    }
}

/// The description of the failure when the positions handed over do not
/// match the pairs of grids.
pub open spec fn offsets_mismatch_text() -> Seq<char> {
    "one pixel position is needed for each pair of neighbouring grids"@
}

/// Checks each grid of a list against the one before it, in order, and gives
/// the failure of the first pair that fails. `offsets[i]` is the origin of
/// grid `i + 1` in pixels of grid `i`.
///
/// Fails with `EmptyInput` on an empty list, and with `ExternalIO` if the
/// positions are not one fewer than the grids.
pub fn have_compatible_geotransforms(transforms: &Vec<AffineTransform>, offsets: &Vec<Point>) -> (r:
    Result<(), Error>)
    ensures
        transforms.len() == 0 ==> r == Err::<(), Error>(Error::EmptyInput),
        transforms.len() > 0 && offsets.len() + 1 != transforms.len() ==> (r matches Err(
            Error::ExternalIO(detail),
        ) && detail@ == offsets_mismatch_text()),
        transforms.len() > 0 && offsets.len() + 1 == transforms.len() ==> r == scan_pairs(
            transforms@,
            offsets@,
            0,
        ),
{
    if transforms.len() == 0 {
        return Err(Error::EmptyInput);
    }
    if offsets.len() != transforms.len() - 1 {
        return Err(
            Error::from_string(
                String::from_str("one pixel position is needed for each pair of neighbouring grids"),
            ),
        );
    }
    let mut i: usize = 0;
    while i + 1 < transforms.len()
        invariant
            offsets.len() + 1 == transforms.len(),
            i < transforms.len(),
            scan_pairs(transforms@, offsets@, 0) == scan_pairs(transforms@, offsets@, i as int),
        decreases transforms.len() - i,
    {
        let verdict = gt_compatible(&transforms[i], &transforms[i + 1], offsets[i]);
        if verdict.is_err() {
            return verdict;
        }
        i += 1;
    }
    Ok(())
}

/// Two grids of one spacing that can be inverted, whose origins lie a whole
/// number of pixels apart along each axis, are compatible.
pub proof fn whole_offsets_are_compatible(
    gt1: AffineTransform,
    gt2: AffineTransform,
    offset: Point,
    columns: int,
    rows: int,
)
    requires
        gt1.same_spacing(&gt2),
        gt1.is_invertible(),
        offset.x.represents(columns),
        offset.y.represents(rows),
    ensures
        gt_compatible_spec(gt1, gt2, offset) == Ok::<(), Error>(()),
{
    crate::value::whole_numbers_stay(offset.x, columns);
    crate::value::whole_numbers_stay(offset.y, rows);
}

/// A list passes exactly if every pair of neighbours does; a failure is that
/// of the first pair that fails.
pub proof fn scan_stops_at_first_failure(
    transforms: Seq<AffineTransform>,
    offsets: Seq<Point>,
    from: int,
)
    requires
        0 <= from,
    ensures
        scan_pairs(transforms, offsets, from) is Ok <==> forall|i: int|
            from <= i && i + 1 < transforms.len() ==> #[trigger] gt_compatible_spec(
                transforms[i],
                transforms[i + 1],
                offsets[i],
            ) is Ok,
        scan_pairs(transforms, offsets, from) is Err ==> exists|i: int|
            {
                &&& from <= i && i + 1 < transforms.len()
                &&& #[trigger] gt_compatible_spec(transforms[i], transforms[i + 1], offsets[i])
                    == scan_pairs(transforms, offsets, from)
                &&& forall|j: int|
                    from <= j < i ==> #[trigger] gt_compatible_spec(
                        transforms[j],
                        transforms[j + 1],
                        offsets[j],
                    ) is Ok
            },
    decreases transforms.len() - from,
{
    if from + 1 < transforms.len() {
        scan_stops_at_first_failure(transforms, offsets, from + 1);
        let here = gt_compatible_spec(transforms[from], transforms[from + 1], offsets[from]);
        if here is Ok {
            if scan_pairs(transforms, offsets, from) is Err {
                let i = choose|i: int|
                    {
                        &&& from + 1 <= i && i + 1 < transforms.len()
                        &&& #[trigger] gt_compatible_spec(
                            transforms[i],
                            transforms[i + 1],
                            offsets[i],
                        ) == scan_pairs(transforms, offsets, from + 1)
                        &&& forall|j: int|
                            from + 1 <= j < i ==> #[trigger] gt_compatible_spec(
                                transforms[j],
                                transforms[j + 1],
                                offsets[j],
                            ) is Ok
                    };
                assert(forall|j: int|
                    from <= j < i ==> #[trigger] gt_compatible_spec(
                        transforms[j],
                        transforms[j + 1],
                        offsets[j],
                    ) is Ok);
            }
        }
    }
}

} // verus!

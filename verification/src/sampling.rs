//! Where the rows and columns of a target lie in a source of another size.

use vstd::prelude::*;

verus! {

/// Where a target's row or column lies between two of the source: how far from
/// `lower` to `upper` is `weight`, a single-precision number by its bits.
#[derive(Debug, Clone, Copy, PartialEq, Eq, Structural)]
pub struct SampleCoordinate {
    pub lower: usize,
    pub upper: usize,
    pub weight: u32,
}

/// `place` can be asked for every target, and places it within the source.
pub open spec fn places_within<P: Fn(usize, usize, usize) -> (usize, u32)>(place: P) -> bool {
    &&& forall|target: usize, target_len: usize, source_len: usize|
        target < target_len && target_len > 1 && source_len > 1 ==> #[trigger] call_requires(
            place,
            (target, target_len, source_len),
        )
    &&& forall|target: usize, target_len: usize, source_len: usize, placed: (usize, u32)| #[trigger]
        call_ensures(place, (target, target_len, source_len), placed) ==> placed.0 < source_len
}

/// Where a target lies in a source. With one row or column on either side it
/// lies at the first.
pub open spec fn is_coordinate<P: Fn(usize, usize, usize) -> (usize, u32)>(
    place: P,
    target: usize,
    target_len: usize,
    source_len: usize,
    coordinate: SampleCoordinate,
) -> bool {
    if source_len <= 1 || target_len <= 1 {
        coordinate == (SampleCoordinate { lower: 0, upper: 0, weight: 0 })
    } else {
        &&& call_ensures(
            place,
            (target, target_len, source_len),
            (coordinate.lower, coordinate.weight),
        )
        &&& coordinate.upper == if coordinate.lower + 1 < source_len {
            coordinate.lower + 1
        } else {
            source_len - 1
        }
    }
}

/// Finds where a target lies in a source.
pub fn source_coordinate<P: Fn(usize, usize, usize) -> (usize, u32)>(
    target: usize,
    target_len: usize,
    source_len: usize,
    place: &P,
) -> (coordinate: SampleCoordinate)
    requires
        target < target_len,
        places_within(*place),
    ensures
        is_coordinate(*place, target, target_len, source_len, coordinate),
        source_len > 0 ==> coordinate.lower < source_len && coordinate.upper < source_len,
{
    if source_len <= 1 || target_len <= 1 {
        return SampleCoordinate { lower: 0, upper: 0, weight: 0 };
    }
    let (lower, weight) = place(target, target_len, source_len);
    let upper: usize = if lower + 1 < source_len {
        lower + 1
    } else {
        source_len - 1
    };
    SampleCoordinate { lower, upper, weight }
}

/// The coordinates of every target in a source.
pub open spec fn are_coordinates<P: Fn(usize, usize, usize) -> (usize, u32)>(
    place: P,
    target_len: usize,
    source_len: usize,
    coordinates: Seq<SampleCoordinate>,
) -> bool {
    &&& coordinates.len() == target_len
    &&& forall|i: int|
        0 <= i < target_len ==> is_coordinate(
            place,
            i as usize,
            target_len,
            source_len,
            #[trigger] coordinates[i],
        )
    &&& source_len > 0 ==> forall|i: int|
        0 <= i < target_len ==> (#[trigger] coordinates[i]).lower < source_len
            && coordinates[i].upper < source_len
}

/// Finds where each target lies in a source.
pub fn sample_coordinates<P: Fn(usize, usize, usize) -> (usize, u32)>(
    target_len: usize,
    source_len: usize,
    place: &P,
) -> (coordinates: Vec<SampleCoordinate>)
    requires
        places_within(*place),
    ensures
        are_coordinates(*place, target_len, source_len, coordinates@),
{
    let mut coordinates: Vec<SampleCoordinate> = Vec::new();
    let mut target: usize = 0;
    while target < target_len
        invariant
            target <= target_len,
            places_within(*place),
            coordinates@.len() == target,
            forall|i: int|
                0 <= i < target ==> is_coordinate(
                    *place,
                    i as usize,
                    target_len,
                    source_len,
                    #[trigger] coordinates@[i],
                ),
            source_len > 0 ==> forall|i: int|
                0 <= i < target ==> (#[trigger] coordinates@[i]).lower < source_len
                    && coordinates@[i].upper < source_len,
        decreases target_len - target,
    {
        let coordinate = source_coordinate(target, target_len, source_len, place);
        coordinates.push(coordinate);
        target = target + 1;
    }
    coordinates
}

/// `place` gives one answer to one question.
pub open spec fn places_alike<P: Fn(usize, usize, usize) -> (usize, u32)>(place: P) -> bool {
    forall|
        target: usize,
        target_len: usize,
        source_len: usize,
        placed: (usize, u32),
        again: (usize, u32),
    |
        #![trigger call_ensures(place, (target, target_len, source_len), placed),
            call_ensures(place, (target, target_len, source_len), again)]
        call_ensures(place, (target, target_len, source_len), placed) && call_ensures(
            place,
            (target, target_len, source_len),
            again,
        ) ==> placed == again
}

/// A weight of nothing, as a single-precision number by its bits.
pub open spec fn is_weightless(weight: u32) -> bool {
    weight == 0 || weight == 0x8000_0000
}

/// `place` puts every row or column of a length on itself.
pub open spec fn places_on_itself<P: Fn(usize, usize, usize) -> (usize, u32)>(
    place: P,
    len: usize,
) -> bool {
    forall|index: usize, placed: (usize, u32)|
        index < len && #[trigger] call_ensures(place, (index, len, len), placed) ==> placed.0
            == index && is_weightless(placed.1)
}

/// A weight between nothing and one, as a single-precision number by its bits.
pub open spec fn is_unit_weight(weight: u32) -> bool {
    weight <= 0x3f80_0000 || is_weightless(weight)
}

/// `place` puts every target between two of the source, not beyond them.
pub open spec fn places_between<P: Fn(usize, usize, usize) -> (usize, u32)>(place: P) -> bool {
    forall|target: usize, target_len: usize, source_len: usize, placed: (usize, u32)|
        target < target_len && target_len > 1 && source_len > 1 && #[trigger] call_ensures(
            place,
            (target, target_len, source_len),
            placed,
        ) ==> is_unit_weight(placed.1)
}

/// Where `place` puts every target between two of the source, so do coordinates.
pub proof fn lemma_placed_between<P: Fn(usize, usize, usize) -> (usize, u32)>(
    place: P,
    target_len: usize,
    source_len: usize,
    coordinates: Seq<SampleCoordinate>,
)
    requires
        places_between(place),
        are_coordinates(place, target_len, source_len, coordinates),
    ensures
        forall|i: int| 0 <= i < target_len ==> is_unit_weight((#[trigger] coordinates[i]).weight),
{
    assert forall|i: int| 0 <= i < target_len implies is_unit_weight(
        (#[trigger] coordinates[i]).weight,
    ) by {
        assert(is_coordinate(place, i as usize, target_len, source_len, coordinates[i]));
    }
}

/// The coordinates of equal sizes are each target's own.
pub proof fn lemma_placed_on_itself<P: Fn(usize, usize, usize) -> (usize, u32)>(
    place: P,
    len: usize,
    coordinates: Seq<SampleCoordinate>,
    at: int,
)
    requires
        places_on_itself(place, len),
        are_coordinates(place, len, len, coordinates),
        0 <= at < len,
    ensures
        coordinates[at].lower == at,
        is_weightless(coordinates[at].weight),
{
    let coordinate = coordinates[at];
    assert(is_coordinate(place, at as usize, len, len, coordinate));
}

/// Where `place` gives one answer to one question, there is one way to place a target.
pub proof fn lemma_places_alike<P: Fn(usize, usize, usize) -> (usize, u32)>(
    place: P,
    target_len: usize,
    source_len: usize,
    coordinates: Seq<SampleCoordinate>,
    others: Seq<SampleCoordinate>,
)
    requires
        places_alike(place),
        are_coordinates(place, target_len, source_len, coordinates),
        are_coordinates(place, target_len, source_len, others),
    ensures
        coordinates == others,
{
    assert forall|i: int| 0 <= i < target_len implies #[trigger] coordinates[i] == others[i] by {
        assert(is_coordinate(place, i as usize, target_len, source_len, coordinates[i]));
        assert(is_coordinate(place, i as usize, target_len, source_len, others[i]));
    }
    assert(coordinates =~= others);
}

/// A target lies between a row or column of the source and the next, or on the last; it
/// lies there as `place` says of this target among so many, in a source of so many.
pub proof fn law_targets_lie_between_neighbours<P: Fn(usize, usize, usize) -> (usize, u32)>(
    place: P,
    target_len: usize,
    source_len: usize,
    coordinates: Seq<SampleCoordinate>,
    target: int,
)
    requires
        are_coordinates(place, target_len, source_len, coordinates),
        0 <= target < target_len,
        source_len > 0,
    ensures
        coordinates.len() == target_len,
        ({
            let coordinate = coordinates[target];
            &&& coordinate.lower < source_len
            &&& coordinate.upper < source_len
            &&& source_len > 1 && target_len > 1 ==> {
                &&& call_ensures(
                    place,
                    (target as usize, target_len, source_len),
                    (coordinate.lower, coordinate.weight),
                )
                &&& coordinate.upper == coordinate.lower + 1 || (coordinate.upper
                    == coordinate.lower && coordinate.lower + 1 == source_len)
            }
            &&& source_len == 1 || target_len == 1 ==> coordinate.lower == 0 && coordinate.upper
                == 0 && coordinate.weight == 0
        }),
{
    assert(is_coordinate(place, target as usize, target_len, source_len, coordinates[target]));
}

} // verus!

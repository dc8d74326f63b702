//! The colours of the waterfall.

use vstd::prelude::*;

use crate::arithmetic::Arithmetic;

verus! {

/// Whether `t` is how far `db` lies in the range from `min_db` to `max_db`, as a
/// number from 0 to 1.
pub open spec fn is_position<A: Arithmetic>(
    db: A::Real,
    min_db: A::Real,
    max_db: A::Real,
    t: A::Real,
) -> bool {
    exists|height: A::Real, range: A::Real, share: A::Real, zero: A::Real, one: A::Real|
        {
            &&& #[trigger] call_ensures(A::minus, (db, min_db), height)
            &&& #[trigger] call_ensures(A::minus, (max_db, min_db), range)
            &&& #[trigger] call_ensures(A::ratio, (height, range), share)
            &&& #[trigger] call_ensures(A::zero, (), zero)
            &&& #[trigger] call_ensures(A::integer, (1i64,), one)
            &&& call_ensures(A::clamp, (share, zero, one), t)
        }
}

/// How far `db` lies in the range from `min_db` to `max_db`, as a number from 0
/// to 1.
pub fn position<A: Arithmetic>(db: A::Real, min_db: A::Real, max_db: A::Real) -> (t: A::Real)
    ensures
        is_position::<A>(db, min_db, max_db, t),
{
    let height: A::Real = A::minus(db, min_db);
    let range: A::Real = A::minus(max_db, min_db);
    let share: A::Real = A::ratio(height, range);
    let zero: A::Real = A::zero();
    let one: A::Real = A::integer(1);
    A::clamp(share, zero, one)
}

/// Where segment `segment` of the gradient starts, in eighths of the range.
pub open spec fn segment_start(segment: u8) -> i64 {
    if segment == 0 {
        0
    } else if segment == 1 {
        2
    } else if segment == 2 {
        4
    } else if segment == 3 {
        5
    } else {
        6
    }
}

/// How wide segment `segment` of the gradient is, in eighths of the range.
pub open spec fn segment_width(segment: u8) -> i64 {
    if segment == 2 || segment == 3 {
        1
    } else {
        2
    }
}

/// Whether `below` says if `t` lies below `eighths` eighths of the range.
pub open spec fn is_below<A: Arithmetic>(t: A::Real, eighths: i64, below: bool) -> bool {
    exists|bound: A::Real| #[trigger]
        call_ensures(A::fraction, (eighths, 8i64), bound) && call_ensures(
            A::less,
            (t, bound),
            below,
        )
}

fn below<A: Arithmetic>(t: A::Real, eighths: i64) -> (res: bool)
    ensures
        is_below::<A>(t, eighths, res),
{
    let bound: A::Real = A::fraction(eighths, 8);
    A::less(t, bound)
}

/// Whether `t` lies in segment `segment` of the gradient: it is the first
/// segment that `t` lies below the end of, and the last segment has no end.
pub open spec fn is_in_segment<A: Arithmetic>(t: A::Real, segment: u8) -> bool {
    &&& segment <= 4
    &&& segment < 4 ==> is_below::<A>(t, segment_start((segment + 1) as u8), true)
    &&& forall|earlier: u8|
        #![trigger segment_start(earlier)]
        1 <= earlier <= segment ==> is_below::<A>(t, segment_start(earlier), false)
}

fn segment_of<A: Arithmetic>(t: A::Real) -> (res: u8)
    ensures
        is_in_segment::<A>(t, res),
{
    if below::<A>(t, 2) {
        0
    } else if below::<A>(t, 4) {
        1
    } else if below::<A>(t, 5) {
        2
    } else if below::<A>(t, 6) {
        3
    } else {
        4
    }
}

/// Whether `u` is how far `t` lies in segment `segment`, as a number from 0 to 1.
pub open spec fn is_share<A: Arithmetic>(t: A::Real, segment: u8, u: A::Real) -> bool {
    exists|start: A::Real, distance: A::Real, width: A::Real|
        {
            &&& #[trigger] call_ensures(A::fraction, (segment_start(segment), 8i64), start)
            &&& #[trigger] call_ensures(A::minus, (t, start), distance)
            &&& #[trigger] call_ensures(A::fraction, (segment_width(segment), 8i64), width)
            &&& call_ensures(A::ratio, (distance, width), u)
        }
}

fn share<A: Arithmetic>(t: A::Real, segment: u8) -> (u: A::Real)
    ensures
        is_share::<A>(t, segment, u),
{
    let start_eighths: i64 = match segment {
        0 => 0,
        1 => 2,
        2 => 4,
        3 => 5,
        _ => 6,
    };
    let width_eighths: i64 = match segment {
        2 | 3 => 1,
        _ => 2,
    };
    let start: A::Real = A::fraction(start_eighths, 8);
    let distance: A::Real = A::minus(t, start);
    let width: A::Real = A::fraction(width_eighths, 8);
    A::ratio(distance, width)
}

/// Whether `byte` is `x` on a scale on which 1 is 255.
pub open spec fn is_brightness<A: Arithmetic>(x: A::Real, byte: u8) -> bool {
    exists|scale: A::Real, scaled: A::Real|
        {
            &&& #[trigger] call_ensures(A::integer, (255i64,), scale)
            &&& #[trigger] call_ensures(A::times, (x, scale), scaled)
            &&& call_ensures(A::to_byte, (scaled,), byte)
        }
}

fn brightness<A: Arithmetic>(x: A::Real) -> (byte: u8)
    ensures
        is_brightness::<A>(x, byte),
{
    let scale: A::Real = A::integer(255);
    let scaled: A::Real = A::times(x, scale);
    A::to_byte(scaled)
}

/// Whether `byte` is `1 - u` on a scale on which 1 is 255.
pub open spec fn is_darkness<A: Arithmetic>(u: A::Real, byte: u8) -> bool {
    exists|one: A::Real, rest: A::Real|
        {
            &&& #[trigger] call_ensures(A::integer, (1i64,), one)
            &&& #[trigger] call_ensures(A::minus, (one, u), rest)
            &&& is_brightness::<A>(rest, byte)
        }
}

fn darkness<A: Arithmetic>(u: A::Real) -> (byte: u8)
    ensures
        is_darkness::<A>(u, byte),
{
    let one: A::Real = A::integer(1);
    let rest: A::Real = A::minus(one, u);
    brightness::<A>(rest)
}

/// The colour of a level in segment `segment` of the gradient, as red, green,
/// blue and opacity. The first segment is blue; then green rises to cyan, blue
/// falls to green, red rises to yellow, and green falls to red.
pub open spec fn gradient(segment: u8, rise: u8, fall: u8) -> Seq<u8> {
    if segment == 0 {
        seq![0, 0, 255, 255]
    } else if segment == 1 {
        seq![0, rise, 255, 255]
    } else if segment == 2 {
        seq![0, 255, fall, 255]
    } else if segment == 3 {
        seq![rise, 255, 0, 255]
    } else {
        seq![255, fall, 0, 255]
    }
}

/// Whether `rgba` is the colour of a level that lies at `t` in its range.
pub open spec fn is_colour_at<A: Arithmetic>(t: A::Real, rgba: Seq<u8>) -> bool {
    exists|segment: u8, u: A::Real, rise: u8, fall: u8|
        {
            &&& is_in_segment::<A>(t, segment)
            &&& #[trigger] is_share::<A>(t, segment, u)
            &&& #[trigger] is_brightness::<A>(u, rise)
            &&& #[trigger] is_darkness::<A>(u, fall)
            &&& rgba == gradient(segment, rise, fall)
        }
}

/// Whether `rgba` is the colour of `db` in the range from `min_db` to `max_db`.
pub open spec fn is_colour<A: Arithmetic>(
    db: A::Real,
    min_db: A::Real,
    max_db: A::Real,
    rgba: Seq<u8>,
) -> bool {
    exists|t: A::Real| #[trigger]
        is_position::<A>(db, min_db, max_db, t) && is_colour_at::<A>(t, rgba)
}

/// The colour of a level in the range from `min_db` to `max_db`: from blue over
/// cyan, green and yellow to red.
pub fn db_to_rgba<A: Arithmetic>(db: A::Real, min_db: A::Real, max_db: A::Real) -> (rgba: [u8; 4])
    ensures
        is_colour::<A>(db, min_db, max_db, rgba@),
{
    let t: A::Real = position::<A>(db, min_db, max_db);
    let segment: u8 = segment_of::<A>(t);
    let u: A::Real = share::<A>(t, segment);
    let rise: u8 = brightness::<A>(u);
    let fall: u8 = darkness::<A>(u);
    let rgba: [u8; 4] = if segment == 0 {
        [0, 0, 255, 255]
    } else if segment == 1 {
        [0, rise, 255, 255]
    } else if segment == 2 {
        [0, 255, fall, 255]
    } else if segment == 3 {
        [rise, 255, 0, 255]
    } else {
        [255, fall, 0, 255]
    };
    assert(rgba@ =~= gradient(segment, rise, fall));
    assert(is_colour_at::<A>(t, rgba@));
    rgba
}

/// How far a colour of the gradient lies along it, in steps of one byte: blue is
/// at 0, cyan at 255, green at 510, yellow at 765 and red at 1020.
pub open spec fn progress(rgba: Seq<u8>) -> int {
    if rgba[1] < 255 && rgba[2] == 255 {
        rgba[1] as int
    } else if rgba[1] == 255 && rgba[0] == 0 {
        510 - rgba[2]
    } else if rgba[1] == 255 {
        510 + rgba[0]
    } else {
        1020 - rgba[1]
    }
}

/// Each segment but the first leads from one stop of the gradient to the next,
/// as its byte rises or falls.
pub proof fn segments_lead_along_the_gradient(segment: u8, rise: u8, fall: u8)
    requires
        segment <= 4,
    ensures
        progress(gradient(segment, rise, fall)) == (if segment == 0 {
            0
        } else if segment == 1 || segment == 3 {
            255 * (segment - 1) + rise
        } else {
            255 * segment - fall
        }),
{
}

/// Each segment begins with the colour that the one before it ends with.
pub proof fn gradient_is_continuous(segment: u8)
    requires
        segment < 4,
    ensures
        gradient(segment, 255, 0) == gradient((segment + 1) as u8, 0, 255),
{
    assert(gradient(segment, 255, 0) =~= gradient((segment + 1) as u8, 0, 255));
}

/// The gradient starts with blue, and its segments end with blue, cyan, green,
/// yellow and red.
pub proof fn gradient_passes_its_stops(rise: u8, fall: u8)
    ensures
        gradient(0, rise, fall) == seq![0u8, 0, 255, 255],
        gradient(1, 255, 0) == seq![0u8, 255, 255, 255],
        gradient(2, 255, 0) == seq![0u8, 255, 0, 255],
        gradient(3, 255, 0) == seq![255u8, 255, 0, 255],
        gradient(4, 255, 0) == seq![255u8, 0, 0, 255],
{
}

/// The segments follow one another without a gap, up to the end of the range.
pub proof fn segments_cover_the_range(segment: u8)
    requires
        segment <= 4,
    ensures
        segment_start(0) == 0,
        segment_start(segment) + segment_width(segment) == (if segment < 4 {
            segment_start((segment + 1) as u8)
        } else {
            8
        }),
{
}

/// Every colour is opaque.
pub proof fn colours_are_opaque<A: Arithmetic>(
    db: A::Real,
    min_db: A::Real,
    max_db: A::Real,
    rgba: Seq<u8>,
)
    requires
        is_colour::<A>(db, min_db, max_db, rgba),
    ensures
        rgba.len() == 4,
        rgba[3] == 255,
{
}

} // verus!

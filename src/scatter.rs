use vstd::prelude::*;
use crate::bounds::bounding_size_of;
use crate::line::{Line, Point};
use crate::line_group::LineGroup;
use crate::rand::random_vec2_range;
use crate::transform::{offset_fits, offset_seq};

verus! {

/// How many candidates are drawn for one copy before that copy is given up.
pub const MAX_ATTEMPTS: u32 = 64;

/// The widest scatter range whose squared distances stay within `u128`.
pub const MAX_RANGE: i64 = 4611686018427387904;

/// The squared distance between two points.
pub open spec fn dist2(p: Point, q: Point) -> int {
    (p.x - q.x) * (p.x - q.x) + (p.y - q.y) * (p.y - q.y)
}

/// `p` lies in the closed disk of radius `range` about the origin.
pub open spec fn in_disk(p: Point, range: int) -> bool {
    p.x * p.x + p.y * p.y <= range * range
}

/// `p` lies in the square from `-range` to `range` on both axes.
pub open spec fn in_square(p: Point, range: int) -> bool {
    -range <= p.x <= range && -range <= p.y <= range
}

/// `p` is at least `min_dist` away from every point of `prev`.
pub open spec fn far_from_all(p: Point, prev: Seq<Point>, min_dist: int) -> bool {
    forall|i: int| 0 <= i < prev.len() ==> dist2(#[trigger] prev[i], p) >= min_dist * min_dist
}

/// Any two points of `offs` are at least `min_dist` apart.
pub open spec fn well_spread(offs: Seq<Point>, min_dist: int) -> bool {
    forall|i: int, j: int|
        0 <= i < j < offs.len() ==> dist2(#[trigger] offs[i], #[trigger] offs[j]) >= min_dist
            * min_dist
}

/// Every point of `offs` lies in the disk, and in its square.
pub open spec fn all_in_disk(offs: Seq<Point>, range: int) -> bool {
    forall|i: int| 0 <= i < offs.len() ==> in_disk(#[trigger] offs[i], range) && in_square(offs[i], range)
}

/// A copy of `t` at each offset of `offs`, in order.
pub open spec fn placed(t: Seq<Line>, offs: Seq<Point>) -> Seq<Line>
    decreases offs.len(),
{
    if offs.len() == 0 {
        seq![]
    } else {
        placed(t, offs.drop_last()) + offset_seq(t, offs.last())
    }
}

/// Moving `t` by any offset of the square of `range` stays within `i64`.
pub open spec fn fits_within(t: Seq<Line>, range: int) -> bool {
    forall|v: Point| #[trigger] in_square(v, range) ==> offset_fits(t, v)
}

fn square_u128(d: i128) -> (r: u128)
    requires
        -0x8000_0000_0000_0000 <= d <= 0x8000_0000_0000_0000,
    ensures
        r == d * d,
        r <= 0x8000_0000_0000_0000 * 0x8000_0000_0000_0000,
{
    let a: u128 = if d < 0 { (-d) as u128 } else { d as u128 };
    assert(a * a <= 0x8000_0000_0000_0000 * 0x8000_0000_0000_0000) by (nonlinear_arith)
        requires
            a <= 0x8000_0000_0000_0000,
    ;
    assert(a * a == d * d) by (nonlinear_arith)
        requires
            a == d || a == -d,
    ;
    a * a
}

/// Whether `candidate` may take the next copy: it lies in the disk of radius
/// `range` and keeps at least `min_dist` from every offset taken before.
pub fn is_valid_offset(candidate: Point, previous: &Vec<Point>, range: i64, min_dist: u64) -> (r: bool)
    requires
        0 <= range <= MAX_RANGE,
        in_square(candidate, range as int),
        forall|i: int| 0 <= i < previous@.len() ==> in_square(#[trigger] previous@[i], range as int),
    ensures
        r == (in_disk(candidate, range as int) && far_from_all(candidate, previous@, min_dist as int)),
{
    let r2 = square_u128(range as i128);
    let c2 = square_u128(candidate.x as i128) + square_u128(candidate.y as i128);
    if c2 > r2 {
        return false;
    }
    let m = min_dist as u128;
    assert(m * m <= u64::MAX * u64::MAX) by (nonlinear_arith)
        requires
            m <= u64::MAX,
    ;
    let m2 = m * m;
    let mut i: usize = 0;
    while i < previous.len()
        invariant
            0 <= range <= MAX_RANGE,
            in_square(candidate, range as int),
            forall|j: int| 0 <= j < previous@.len() ==> in_square(#[trigger] previous@[j], range as int),
            m2 == min_dist * min_dist,
            i <= previous@.len(),
            forall|j: int| 0 <= j < i ==> dist2(#[trigger] previous@[j], candidate) >= min_dist * min_dist,
        decreases previous@.len() - i,
    {
        let p = previous[i];
        assert(in_square(previous@[i as int], range as int));
        let d2 = square_u128(p.x as i128 - candidate.x as i128) + square_u128(
            p.y as i128 - candidate.y as i128,
        );
        if d2 < m2 {
            return false;
        }
        i += 1;
    }
    true
}

/// `p` may take the next copy: it lies in the disk and keeps `min_dist`
/// from every offset taken before.
pub open spec fn valid_offset(p: Point, prev: Seq<Point>, range: int, min_dist: int) -> bool {
    in_disk(p, range) && far_from_all(p, prev, min_dist)
}

/// The first candidate of `cands` that may take the next copy, if any.
pub open spec fn first_valid(cands: Seq<Point>, prev: Seq<Point>, range: int, min_dist: int) -> Option<
    Point,
>
    decreases cands.len(),
{
    if cands.len() == 0 {
        None
    } else if valid_offset(cands[0], prev, range, min_dist) {
        Some(cands[0])
    } else {
        first_valid(cands.drop_first(), prev, range, min_dist)
    }
}

/// The candidates drawn for one copy: `MAX_ATTEMPTS` points of the square of
/// `range`.
pub open spec fn is_slot_draw(cands: Seq<Point>, range: int) -> bool {
    &&& cands.len() == MAX_ATTEMPTS
    &&& forall|i: int| 0 <= i < cands.len() ==> in_square(#[trigger] cands[i], range)
}

/// The candidates drawn for `number` copies, one slot each.
pub open spec fn is_scatter_draw(draws: Seq<Seq<Point>>, number: nat, range: int) -> bool {
    &&& draws.len() == number
    &&& forall|k: int| 0 <= k < draws.len() ==> is_slot_draw(#[trigger] draws[k], range)
}

/// The offsets accepted slot after slot: each slot takes its first valid
/// candidate against the offsets accepted before it, or is skipped.
pub open spec fn accepted(draws: Seq<Seq<Point>>, range: int, min_dist: int) -> Seq<Point>
    decreases draws.len(),
{
    if draws.len() == 0 {
        seq![]
    } else {
        let prev = accepted(draws.drop_last(), range, min_dist);
        match first_valid(draws.last(), prev, range, min_dist) {
            Some(p) => prev.push(p),
            None => prev,
        }
    }
}

proof fn lemma_first_valid_is_valid(cands: Seq<Point>, prev: Seq<Point>, range: int, min_dist: int)
    requires
        forall|i: int| 0 <= i < cands.len() ==> in_square(#[trigger] cands[i], range),
    ensures
        first_valid(cands, prev, range, min_dist) matches Some(p) ==> valid_offset(
            p,
            prev,
            range,
            min_dist,
        ) && in_square(p, range),
    decreases cands.len(),
{
    if cands.len() > 0 && !valid_offset(cands[0], prev, range, min_dist) {
        let rest = cands.drop_first();
        assert forall|i: int| 0 <= i < rest.len() implies in_square(#[trigger] rest[i], range) by {
            assert(rest[i] == cands[i + 1]);
        }
        lemma_first_valid_is_valid(rest, prev, range, min_dist);
    } else if cands.len() > 0 {
        assert(in_square(cands[0], range));
    }
}

/// How many square draws are made for one candidate before giving up on
/// landing inside the disk; a draw lands there with a chance above 3/4, so
/// all of them miss with a chance below one in 10^19.
pub const MAX_DISK_TRIES: u32 = 32;

/// A point of the square of `range`, drawn again while it falls outside the
/// disk, up to `MAX_DISK_TRIES` draws; the last draw is kept either way.
fn draw_candidate(range: i64) -> (r: Point)
    requires
        0 <= range <= MAX_RANGE,
    ensures
        in_square(r, range as int),
{
    let mut p = random_vec2_range(-range..range + 1);
    let mut tries: u32 = 1;
    while tries < MAX_DISK_TRIES && !is_valid_offset(p, &Vec::new(), range, 0)
        invariant
            0 <= range <= MAX_RANGE,
            in_square(p, range as int),
        decreases MAX_DISK_TRIES - tries,
    {
        p = random_vec2_range(-range..range + 1);
        tries += 1;
    }
    p
}

/// The first candidate that may take the next copy, or `None` when none
/// may.
pub fn pick_offset(candidates: &Vec<Point>, previous: &Vec<Point>, range: i64, min_dist: u64) -> (r:
    Option<Point>)
    requires
        0 <= range <= MAX_RANGE,
        forall|i: int| 0 <= i < candidates@.len() ==> in_square(#[trigger] candidates@[i], range as int),
        forall|i: int| 0 <= i < previous@.len() ==> in_square(#[trigger] previous@[i], range as int),
    ensures
        r == first_valid(candidates@, previous@, range as int, min_dist as int),
{
    let mut i: usize = 0;
    assert(candidates@.skip(0) =~= candidates@);
    while i < candidates.len()
        invariant
            0 <= range <= MAX_RANGE,
            forall|j: int| 0 <= j < candidates@.len() ==> in_square(#[trigger] candidates@[j], range as int),
            forall|j: int| 0 <= j < previous@.len() ==> in_square(#[trigger] previous@[j], range as int),
            i <= candidates@.len(),
            first_valid(candidates@, previous@, range as int, min_dist as int) == first_valid(
                candidates@.skip(i as int),
                previous@,
                range as int,
                min_dist as int,
            ),
        decreases candidates@.len() - i,
    {
        let c = candidates[i];
        assert(candidates@.skip(i as int)[0] == c);
        assert(candidates@.skip(i as int).drop_first() =~= candidates@.skip(i + 1));
        if is_valid_offset(c, previous, range, min_dist) {
            return Some(c);
        }
        i += 1;
    }
    None
}

/// Draws `MAX_ATTEMPTS` candidates, each in the disk of `range` unless every
/// try for it missed, and returns the first one that may take the next copy,
/// or `None` when none may.
pub fn generate_new_offset(previous: &Vec<Point>, range: i64, min_dist: u64) -> (r: Option<Point>)
    requires
        0 <= range <= MAX_RANGE,
        forall|i: int| 0 <= i < previous@.len() ==> in_square(#[trigger] previous@[i], range as int),
    ensures
        exists|c: Seq<Point>|
            #[trigger] is_slot_draw(c, range as int) && r == first_valid(
                c,
                previous@,
                range as int,
                min_dist as int,
            ),
{
    let mut candidates: Vec<Point> = Vec::new();
    let mut attempt: u32 = 0;
    while attempt < MAX_ATTEMPTS
        invariant
            0 <= range <= MAX_RANGE,
            candidates@.len() == attempt <= MAX_ATTEMPTS,
            forall|i: int| 0 <= i < candidates@.len() ==> in_square(#[trigger] candidates@[i], range as int),
        decreases MAX_ATTEMPTS - attempt,
    {
        candidates.push(draw_candidate(range));
        attempt += 1;
    }
    let r = pick_offset(&candidates, previous, range, min_dist);
    assert(is_slot_draw(candidates@, range as int));
    r
}

/// Offsets for up to `number` copies, one slot each: a slot takes the first
/// of its candidates in the disk of radius `range` and at least `min_dist`
/// from the offsets taken before it, and is skipped when there is none.
pub fn scatter_offsets(range: i64, number: u32, min_dist: u64) -> (r: Vec<Point>)
    requires
        0 <= range <= MAX_RANGE,
    ensures
        exists|draws: Seq<Seq<Point>>|
            #[trigger] is_scatter_draw(draws, number as nat, range as int) && r@ == accepted(
                draws,
                range as int,
                min_dist as int,
            ),
        r@.len() <= number,
        all_in_disk(r@, range as int),
        well_spread(r@, min_dist as int),
{
    let mut previous: Vec<Point> = Vec::new();
    let ghost mut draws: Seq<Seq<Point>> = seq![];
    let mut k: u32 = 0;
    while k < number
        invariant
            0 <= range <= MAX_RANGE,
            k <= number,
            is_scatter_draw(draws, k as nat, range as int),
            previous@ == accepted(draws, range as int, min_dist as int),
            previous@.len() <= k,
            all_in_disk(previous@, range as int),
            well_spread(previous@, min_dist as int),
        decreases number - k,
    {
        let got = generate_new_offset(&previous, range, min_dist);
        let ghost c = choose|c: Seq<Point>|
            #[trigger] is_slot_draw(c, range as int) && got == first_valid(
                c,
                previous@,
                range as int,
                min_dist as int,
            );
        proof {
            lemma_first_valid_is_valid(c, previous@, range as int, min_dist as int);
            let nd = draws.push(c);
            assert(nd.drop_last() =~= draws);
            assert(nd.last() == c);
            assert forall|j: int| 0 <= j < nd.len() implies is_slot_draw(#[trigger] nd[j], range as int) by {
                if j < draws.len() {
                    assert(nd[j] == draws[j]);
                }
            }
            draws = nd;
        }
        match got {
            Some(offset) => {
                let ghost before = previous@;
                previous.push(offset);
                assert forall|i: int, j: int|
                    0 <= i < j < previous@.len() implies dist2(
                    #[trigger] previous@[i],
                    #[trigger] previous@[j],
                ) >= min_dist * min_dist by {
                    if j < before.len() {
                        assert(previous@[i] == before[i] && previous@[j] == before[j]);
                    } else {
                        assert(previous@[i] == before[i]);
                    }
                }
            },
            None => {},
        }
        k += 1;
    }
    previous
}

impl LineGroup {
    /// A copy of `self` moved to each offset, in order.
    pub fn place_at(&self, offsets: &Vec<Point>) -> (r: LineGroup)
        requires
            forall|i: int| 0 <= i < offsets@.len() ==> offset_fits(self@, #[trigger] offsets@[i]),
        ensures
            r@ == placed(self@, offsets@),
    {
        let mut res = LineGroup::default();
        let mut i: usize = 0;
        while i < offsets.len()
            invariant
                forall|j: int| 0 <= j < offsets@.len() ==> offset_fits(self@, #[trigger] offsets@[j]),
                i <= offsets@.len(),
                res@ == placed(self@, offsets@.take(i as int)),
            decreases offsets@.len() - i,
        {
            let offset = offsets[i];
            assert(offset_fits(self@, offsets@[i as int]));
            res.extend(self.offset(offset));
            proof {
                let t = offsets@.take(i + 1);
                assert(t.drop_last() =~= offsets@.take(i as int));
                assert(t.last() == offset);
            }
            i += 1;
        }
        assert(offsets@.take(offsets@.len() as int) =~= offsets@);
        res
    }

    /// Up to `number` copies of `self` spread over the disk of radius
    /// `range`, no two closer than the bounding size of `self`: the offsets
    /// that `scatter_offsets` accepts. Copies for which no free place was
    /// found are left out.
    pub fn scatter(self, range: i64, number: u32) -> (r: LineGroup)
        requires
            self@.len() > 0,
            0 <= range <= MAX_RANGE,
            fits_within(self@, range as int),
        ensures
            exists|draws: Seq<Seq<Point>>|
                {
                    let offs = accepted(draws, range as int, bounding_size_of(self@));
                    &&& #[trigger] is_scatter_draw(draws, number as nat, range as int)
                    &&& offs.len() <= number
                    &&& all_in_disk(offs, range as int)
                    &&& well_spread(offs, bounding_size_of(self@))
                    &&& r@ == placed(self@, offs)
                },
    {
        let bounding_size = self.calculate_bounding_size();
        let offsets = scatter_offsets(range, number, bounding_size);
        assert forall|i: int| 0 <= i < offsets@.len() implies offset_fits(self@, #[trigger] offsets@[i]) by {
            assert(in_square(offsets@[i], range as int));
        }
        self.place_at(&offsets)
    }
}

} // verus!

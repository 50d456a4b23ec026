//! Which parts of a room are seen by how many lighthouse base stations.
//!
//! The geometry of each sight line is computed by the caller; coordinates and angles are bits
//! of singles.

use crate::float_bits;
use vstd::prelude::*;

verus! {

/// A base station in the room.
#[derive(Debug, Clone, Copy)]
pub struct BaseStation {
    pub pos: [u32; 3],
    /// The turn about the vertical axis in degrees.
    pub azimuth_deg: u32,
    /// The downward tilt in degrees.
    pub elevation_deg: u32,
}

/// A voxel as seen from a base station.
#[derive(Debug, Clone, Copy)]
pub struct Sighting {
    /// The distance along the look direction.
    pub ahead: u32,
    pub distance: u32,
    /// The angles to the left or right and up or down.
    pub horizontal: u32,
    pub vertical: u32,
    /// The angle between the receiver's up direction and the base station.
    pub receiver: u32,
    /// Whether an obstacle is in between.
    pub blocked: bool,
}

/// What a base station covers: half the sweep angles, half the field of view of the receiver if
/// it counts, and the range.
#[derive(Debug, Clone, Copy)]
pub struct SweepLimits {
    pub horizontal: u32,
    pub vertical: u32,
    pub receiver: Option<u32>,
    pub distance: u32,
}

/// A voxel lies in the sweep of a base station: it is in front, in range, within both sweep
/// angles and within the receiver's view.
pub open spec fn in_sweep(s: Sighting, limits: SweepLimits) -> bool {
    &&& !float_bits::single_at_most(s.ahead, 0)
    &&& !float_bits::single_less(limits.distance, s.distance)
    &&& float_bits::single_less(s.horizontal, limits.horizontal)
    &&& float_bits::single_less(s.vertical, limits.vertical)
    &&& match limits.receiver {
        Some(half) => !float_bits::single_less(half, s.receiver),
        None => true,
    }
}

/// A base station covers a voxel; obstacles count or not.
pub open spec fn covers(s: Sighting, limits: SweepLimits, obstacles: bool) -> bool {
    in_sweep(s, limits) && !(obstacles && s.blocked)
}

/// Whether a base station covers a voxel.
pub fn is_covered(s: &Sighting, limits: &SweepLimits, obstacles: bool) -> (r: bool)
    ensures
        r == covers(*s, *limits, obstacles),
{
    if float_bits::at_most_single(s.ahead, 0) {
        return false;
    }
    if float_bits::less_single(limits.distance, s.distance) {
        return false;
    }
    if !(float_bits::less_single(s.horizontal, limits.horizontal) && float_bits::less_single(
        s.vertical,
        limits.vertical,
    )) {
        return false;
    }
    if let Some(half) = limits.receiver {
        if float_bits::less_single(half, s.receiver) {
            return false;
        }
    }
    !(obstacles && s.blocked)
}

/// The size of the room in voxels.
#[derive(Debug, Clone, Copy)]
pub struct GridSize {
    pub nx: usize,
    pub ny: usize,
    pub nz: usize,
}

/// All voxels as one base station sees them: layers, rows and places in a row.
pub struct SightGrid {
    pub cells: Vec<Vec<Vec<Sighting>>>,
}

/// The grid has a cell for each voxel.
pub open spec fn grid_fits(cells: Seq<Vec<Vec<Sighting>>>, size: GridSize) -> bool {
    &&& cells.len() == size.nz
    &&& forall|z: int| 0 <= z < size.nz ==> (#[trigger] cells[z])@.len() == size.ny
    &&& forall|z: int, y: int|
        0 <= z < size.nz && 0 <= y < size.ny ==> (#[trigger] cells[z]@[y])@.len() == size.nx
}

/// Every base station has a cell for each voxel.
pub open spec fn grids_fit(grids: Seq<SightGrid>, size: GridSize) -> bool {
    forall|k: int| 0 <= k < grids.len() ==> grid_fits((#[trigger] grids[k]).cells@, size)
}

/// The number of the first `n` base stations that cover a voxel.
pub open spec fn times_covered(
    grids: Seq<SightGrid>,
    limits: SweepLimits,
    obstacles: bool,
    z: int,
    y: int,
    x: int,
    n: nat,
) -> nat
    decreases n,
{
    if n == 0 {
        0
    } else {
        times_covered(grids, limits, obstacles, z, y, x, (n - 1) as nat) + (if covers(
            grids[n - 1].cells@[z]@[y]@[x],
            limits,
            obstacles,
        ) {
            1nat
        } else {
            0nat
        })
    }
}

/// A count in one byte: it stops at the largest.
pub open spec fn level(count: nat) -> u8 {
    if count > 255 {
        255
    } else {
        count as u8
    }
}

/// The coverage of the room.
pub struct CoverageResult {
    /// Voxels per metre.
    pub resolution: u32,
    /// How many base stations cover each voxel: layers, rows and places in a row.
    pub voxels: Vec<Vec<Vec<u8>>>,
}

/// The coverage has the size of the room.
pub open spec fn voxels_fit(voxels: Seq<Vec<Vec<u8>>>, size: GridSize) -> bool {
    &&& voxels.len() == size.nz
    &&& forall|z: int| 0 <= z < size.nz ==> (#[trigger] voxels[z])@.len() == size.ny
    &&& forall|z: int, y: int|
        0 <= z < size.nz && 0 <= y < size.ny ==> (#[trigger] voxels[z]@[y])@.len() == size.nx
}

fn cover_row(
    grids: &Vec<SightGrid>,
    limits: &SweepLimits,
    obstacles: bool,
    size: &GridSize,
    z: usize,
    y: usize,
) -> (row: Vec<u8>)
    requires
        grids_fit(grids@, *size),
        z < size.nz,
        y < size.ny,
    ensures
        row@.len() == size.nx,
        forall|x: int|
            0 <= x < size.nx ==> #[trigger] row@[x] == level(
                times_covered(
                    grids@,
                    *limits,
                    obstacles,
                    z as int,
                    y as int,
                    x,
                    grids@.len(),
                ),
            ),
{
    let mut row: Vec<u8> = Vec::new();
    let mut x: usize = 0;
    while x < size.nx
        invariant
            x <= size.nx,
            grids_fit(grids@, *size),
            z < size.nz,
            y < size.ny,
            row@.len() == x,
            forall|i: int|
                0 <= i < x ==> #[trigger] row@[i] == level(
                    times_covered(
                        grids@,
                        *limits,
                        obstacles,
                        z as int,
                        y as int,
                        i,
                        grids@.len(),
                    ),
                ),
        decreases size.nx - x,
    {
        let mut count: u8 = 0;
        let mut k: usize = 0;
        while k < grids.len()
            invariant
                k <= grids@.len(),
                grids_fit(grids@, *size),
                z < size.nz,
                y < size.ny,
                x < size.nx,
                count == level(
                    times_covered(
                        grids@,
                        *limits,
                        obstacles,
                        z as int,
                        y as int,
                        x as int,
                        k as nat,
                    ),
                ),
            decreases grids.len() - k,
        {
            assert(grid_fits(grids@[k as int].cells@, *size));
            assert(grids@[k as int].cells@[z as int]@.len() == size.ny);
            assert(grids@[k as int].cells@[z as int]@[y as int]@.len() == size.nx);
            let cell = &grids[k].cells[z][y][x];
            if is_covered(cell, limits, obstacles) {
                count = count.saturating_add(1);
            }
            k = k + 1;
        }
        row.push(count);
        x = x + 1;
    }
    row
}

/// Each voxel of a layer holds how many base stations cover it.
pub open spec fn layer_covered(
    layer: Seq<Vec<u8>>,
    grids: Seq<SightGrid>,
    limits: SweepLimits,
    obstacles: bool,
    size: GridSize,
    z: int,
) -> bool {
    &&& layer.len() == size.ny
    &&& forall|y: int| 0 <= y < size.ny ==> (#[trigger] layer[y])@.len() == size.nx
    &&& forall|y: int, x: int|
        0 <= y < size.ny && 0 <= x < size.nx ==> #[trigger] layer[y]@[x] == level(
            times_covered(grids, limits, obstacles, z, y, x, grids.len()),
        )
}

fn cover_layer(
    grids: &Vec<SightGrid>,
    limits: &SweepLimits,
    obstacles: bool,
    size: &GridSize,
    z: usize,
) -> (layer: Vec<Vec<u8>>)
    requires
        grids_fit(grids@, *size),
        z < size.nz,
    ensures
        layer_covered(layer@, grids@, *limits, obstacles, *size, z as int),
{
    let mut layer: Vec<Vec<u8>> = Vec::new();
    let mut y: usize = 0;
    while y < size.ny
        invariant
            y <= size.ny,
            grids_fit(grids@, *size),
            z < size.nz,
            layer@.len() == y,
            forall|j: int| 0 <= j < y ==> (#[trigger] layer@[j])@.len() == size.nx,
            forall|j: int, x: int|
                0 <= j < y && 0 <= x < size.nx ==> #[trigger] layer@[j]@[x] == level(
                    times_covered(grids@, *limits, obstacles, z as int, j, x, grids@.len()),
                ),
        decreases size.ny - y,
    {
        layer.push(cover_row(grids, limits, obstacles, size, z, y));
        y = y + 1;
    }
    layer
}

fn cover_room(
    grids: &Vec<SightGrid>,
    limits: &SweepLimits,
    obstacles: bool,
    size: &GridSize,
) -> (voxels: Vec<Vec<Vec<u8>>>)
    requires
        grids_fit(grids@, *size),
    ensures
        voxels@.len() == size.nz,
        forall|z: int|
            0 <= z < size.nz ==> layer_covered(
                (#[trigger] voxels@[z])@,
                grids@,
                *limits,
                obstacles,
                *size,
                z,
            ),
{
    let mut voxels: Vec<Vec<Vec<u8>>> = Vec::new();
    let mut z: usize = 0;
    while z < size.nz
        invariant
            z <= size.nz,
            grids_fit(grids@, *size),
            voxels@.len() == z,
            forall|k: int|
                0 <= k < z ==> layer_covered(
                    (#[trigger] voxels@[k])@,
                    grids@,
                    *limits,
                    obstacles,
                    *size,
                    k,
                ),
        decreases size.nz - z,
    {
        voxels.push(cover_layer(grids, limits, obstacles, size, z));
        z = z + 1;
    }
    voxels
}

/// The coverage of the room: each voxel holds how many base stations cover it. Obstacles do not
/// count.
pub fn compute_coverage(
    resolution: u32,
    size: &GridSize,
    grids: &Vec<SightGrid>,
    limits: &SweepLimits,
) -> (result: CoverageResult)
    requires
        grids_fit(grids@, *size),
    ensures
        result.resolution == resolution,
        voxels_fit(result.voxels@, *size),
        forall|z: int, y: int, x: int|
            0 <= z < size.nz && 0 <= y < size.ny && 0 <= x < size.nx
                ==> #[trigger] result.voxels@[z]@[y]@[x] == level(
                times_covered(grids@, *limits, false, z, y, x, grids@.len()),
            ),
{
    let voxels = cover_room(grids, limits, false, size);
    proof {
        assert forall|z: int| 0 <= z < size.nz implies (#[trigger] voxels@[z])@.len()
            == size.ny by {
            assert(layer_covered(voxels@[z]@, grids@, *limits, false, *size, z));
        }
        assert forall|z: int, y: int| 0 <= z < size.nz && 0 <= y < size.ny implies (
        #[trigger] voxels@[z]@[y])@.len() == size.nx by {
            assert(layer_covered(voxels@[z]@, grids@, *limits, false, *size, z));
        }
        assert forall|z: int, y: int, x: int|
            0 <= z < size.nz && 0 <= y < size.ny && 0 <= x < size.nx implies #[trigger] voxels@[z]@[y]@[x]
            == level(times_covered(grids@, *limits, false, z, y, x, grids@.len())) by {
            assert(layer_covered(voxels@[z]@, grids@, *limits, false, *size, z));
        }
    }
    CoverageResult { resolution, voxels }
}

/// Which voxels are inside an obstacle: layers, rows and places in a row.
pub open spec fn inside_fits(inside: Seq<Vec<Vec<bool>>>, size: GridSize) -> bool {
    &&& inside.len() == size.nz
    &&& forall|z: int| 0 <= z < size.nz ==> (#[trigger] inside[z])@.len() == size.ny
    &&& forall|z: int, y: int|
        0 <= z < size.nz && 0 <= y < size.ny ==> (#[trigger] inside[z]@[y])@.len() == size.nx
}

/// The coverage of a voxel in a room with obstacles: none inside an obstacle.
pub open spec fn level_with_obstacles(
    grids: Seq<SightGrid>,
    limits: SweepLimits,
    inside: Seq<Vec<Vec<bool>>>,
    z: int,
    y: int,
    x: int,
) -> u8 {
    if inside[z]@[y]@[x] {
        0
    } else {
        level(times_covered(grids, limits, true, z, y, x, grids.len()))
    }
}

fn clear_inside_row(row: &mut Vec<u8>, inside: &Vec<bool>)
    requires
        old(row)@.len() == inside@.len(),
    ensures
        final(row)@ == Seq::new(
            old(row)@.len(),
            |x: int|
                if inside@[x] {
                    0u8
                } else {
                    old(row)@[x]
                },
        ),
{
    let ghost before = row@;
    let n: usize = row.len();
    let mut x: usize = 0;
    while x < n
        invariant
            x <= n,
            n == before.len(),
            row@.len() == n,
            inside@.len() == n,
            forall|k: int|
                0 <= k < x ==> #[trigger] row@[k] == (if inside@[k] {
                    0u8
                } else {
                    before[k]
                }),
            forall|k: int| x <= k < n ==> #[trigger] row@[k] == before[k],
        decreases n - x,
    {
        if row[x] > 0 && inside[x] {
            row[x] = 0;
        }
        x = x + 1;
    }
}

/// The coverage of the room with obstacles: a base station does not cover what an obstacle hides
/// from it, and nothing is covered inside an obstacle.
pub fn compute_coverage_with_obstacles(
    resolution: u32,
    size: &GridSize,
    grids: &Vec<SightGrid>,
    limits: &SweepLimits,
    inside: &Vec<Vec<Vec<bool>>>,
    n_obstacles: usize,
) -> (result: CoverageResult)
    requires
        grids_fit(grids@, *size),
        n_obstacles > 0 ==> inside_fits(inside@, *size),
    ensures
        result.resolution == resolution,
        voxels_fit(result.voxels@, *size),
        forall|z: int, y: int, x: int|
            0 <= z < size.nz && 0 <= y < size.ny && 0 <= x < size.nx
                ==> #[trigger] result.voxels@[z]@[y]@[x] == (if n_obstacles == 0 {
                level(times_covered(grids@, *limits, false, z, y, x, grids@.len()))
            } else {
                level_with_obstacles(grids@, *limits, inside@, z, y, x)
            }),
{
    if n_obstacles == 0 {
        return compute_coverage(resolution, size, grids, limits);
    }
    let mut voxels: Vec<Vec<Vec<u8>>> = Vec::new();
    let mut z: usize = 0;
    while z < size.nz
        invariant
            z <= size.nz,
            grids_fit(grids@, *size),
            inside_fits(inside@, *size),
            voxels@.len() == z,
            forall|k: int| 0 <= k < z ==> (#[trigger] voxels@[k])@.len() == size.ny,
            forall|k: int, y: int|
                0 <= k < z && 0 <= y < size.ny ==> (#[trigger] voxels@[k]@[y])@.len() == size.nx,
            forall|k: int, y: int, x: int|
                0 <= k < z && 0 <= y < size.ny && 0 <= x < size.nx
                    ==> #[trigger] voxels@[k]@[y]@[x] == level_with_obstacles(
                    grids@,
                    *limits,
                    inside@,
                    k,
                    y,
                    x,
                ),
        decreases size.nz - z,
    {
        assert(inside@[z as int]@.len() == size.ny);
        let mut layer: Vec<Vec<u8>> = Vec::new();
        let mut y: usize = 0;
        while y < size.ny
            invariant
                y <= size.ny,
                z < size.nz,
                grids_fit(grids@, *size),
                inside_fits(inside@, *size),
                inside@[z as int]@.len() == size.ny,
                layer@.len() == y,
                forall|j: int| 0 <= j < y ==> (#[trigger] layer@[j])@.len() == size.nx,
                forall|j: int, x: int|
                    0 <= j < y && 0 <= x < size.nx ==> #[trigger] layer@[j]@[x]
                        == level_with_obstacles(grids@, *limits, inside@, z as int, j, x),
            decreases size.ny - y,
        {
            assert(inside@[z as int]@[y as int]@.len() == size.nx);
            let mut row = cover_row(grids, limits, true, size, z, y);
            clear_inside_row(&mut row, &inside[z][y]);
            layer.push(row);
            y = y + 1;
        }
        voxels.push(layer);
        z = z + 1;
    }
    CoverageResult { resolution, voxels }
}

/// Where nothing is hidden and nothing is inside an obstacle, the coverage is that of the empty
/// room; obstacles never add coverage.
pub proof fn law_obstacles_only_hide(
    grids: Seq<SightGrid>,
    limits: SweepLimits,
    z: int,
    y: int,
    x: int,
    n: nat,
)
    requires
        n <= grids.len(),
    ensures
        times_covered(grids, limits, true, z, y, x, n) <= times_covered(
            grids,
            limits,
            false,
            z,
            y,
            x,
            n,
        ),
        (forall|k: int| 0 <= k < n ==> !(#[trigger] grids[k]).cells@[z]@[y]@[x].blocked)
            ==> times_covered(grids, limits, true, z, y, x, n) == times_covered(
            grids,
            limits,
            false,
            z,
            y,
            x,
            n,
        ),
        times_covered(grids, limits, false, z, y, x, n) <= n,
    decreases n,
{
    if n > 0 {
        law_obstacles_only_hide(grids, limits, z, y, x, (n - 1) as nat);
    }
}

/// The base stations of two lists together cover a voxel as often as those of each list do, and
/// no more often than a voxel counts.
pub proof fn law_joined_stations(
    first: Seq<SightGrid>,
    second: Seq<SightGrid>,
    limits: SweepLimits,
    obstacles: bool,
    z: int,
    y: int,
    x: int,
)
    ensures
        ({
            let a = times_covered(first, limits, obstacles, z, y, x, first.len());
            let b = times_covered(second, limits, obstacles, z, y, x, second.len());
            let both = first + second;
            let all = times_covered(both, limits, obstacles, z, y, x, both.len());
            &&& all == a + b
            &&& level(all) as nat == (if level(a) + level(b) > 255 {
                255
            } else {
                level(a) as nat + level(b) as nat
            })
        }),
{
    lemma_joined_prefix(first, second, limits, obstacles, z, y, x, first.len());
    lemma_joined_suffix(first, second, limits, obstacles, z, y, x, second.len());
}

proof fn lemma_joined_prefix(
    first: Seq<SightGrid>,
    second: Seq<SightGrid>,
    limits: SweepLimits,
    obstacles: bool,
    z: int,
    y: int,
    x: int,
    n: nat,
)
    requires
        n <= first.len(),
    ensures
        times_covered(first + second, limits, obstacles, z, y, x, n) == times_covered(
            first,
            limits,
            obstacles,
            z,
            y,
            x,
            n,
        ),
    decreases n,
{
    if n > 0 {
        lemma_joined_prefix(first, second, limits, obstacles, z, y, x, (n - 1) as nat);
        assert((first + second)[n - 1] == first[n - 1]);
    }
}

proof fn lemma_joined_suffix(
    first: Seq<SightGrid>,
    second: Seq<SightGrid>,
    limits: SweepLimits,
    obstacles: bool,
    z: int,
    y: int,
    x: int,
    n: nat,
)
    requires
        n <= second.len(),
    ensures
        times_covered(first + second, limits, obstacles, z, y, x, first.len() + n)
            == times_covered(first + second, limits, obstacles, z, y, x, first.len())
            + times_covered(second, limits, obstacles, z, y, x, n),
    decreases n,
{
    if n > 0 {
        lemma_joined_suffix(first, second, limits, obstacles, z, y, x, (n - 1) as nat);
        assert((first + second)[first.len() + n - 1] == second[n - 1]);
    }
}

/// No voxel is in the sweep of any base station behind it, or out of range.
pub proof fn law_behind_or_far(s: Sighting, limits: SweepLimits, obstacles: bool)
    ensures
        float_bits::single_at_most(s.ahead, 0) ==> !covers(s, limits, obstacles),
        float_bits::single_less(limits.distance, s.distance) ==> !covers(s, limits, obstacles),
{
}

// ---------------------------------------------------------------------------
// Reading the coverage
// ---------------------------------------------------------------------------

/// The voxels of a row covered by at least `min` base stations.
pub open spec fn row_count(row: Seq<u8>, min: u8) -> nat
    decreases row.len(),
{
    if row.len() == 0 {
        0
    } else {
        row_count(row.drop_last(), min) + (if row.last() >= min {
            1nat
        } else {
            0nat
        })
    }
}

/// The voxels of a layer covered by at least `min` base stations.
pub open spec fn layer_count(layer: Seq<Vec<u8>>, min: u8) -> nat
    decreases layer.len(),
{
    if layer.len() == 0 {
        0
    } else {
        layer_count(layer.drop_last(), min) + row_count(layer.last()@, min)
    }
}

/// The voxels covered by at least `min` base stations; by at least none are all of them.
pub open spec fn room_count(voxels: Seq<Vec<Vec<u8>>>, min: u8) -> nat
    decreases voxels.len(),
{
    if voxels.len() == 0 {
        0
    } else {
        room_count(voxels.drop_last(), min) + layer_count(voxels.last()@, min)
    }
}

proof fn lemma_row_count(row: Seq<u8>, low: u8, high: u8)
    requires
        low <= high,
    ensures
        row_count(row, high) <= row_count(row, low),
        row_count(row, 0) == row.len(),
    decreases row.len(),
{
    if row.len() > 0 {
        lemma_row_count(row.drop_last(), low, high);
    }
}

proof fn lemma_layer_count(layer: Seq<Vec<u8>>, low: u8, high: u8)
    requires
        low <= high,
    ensures
        layer_count(layer, high) <= layer_count(layer, low),
    decreases layer.len(),
{
    if layer.len() > 0 {
        lemma_layer_count(layer.drop_last(), low, high);
        lemma_row_count(layer.last()@, low, high);
    }
}

/// The more base stations are asked for, the fewer voxels are covered.
pub proof fn law_coverage_falls(voxels: Seq<Vec<Vec<u8>>>, low: u8, high: u8)
    requires
        low <= high,
    ensures
        room_count(voxels, high) <= room_count(voxels, low),
    decreases voxels.len(),
{
    if voxels.len() > 0 {
        law_coverage_falls(voxels.drop_last(), low, high);
        lemma_layer_count(voxels.last()@, low, high);
    }
}

fn count_row(row: &Vec<u8>, min: u8) -> (n: usize)
    ensures
        n == row_count(row@, min),
{
    let mut n: usize = 0;
    let mut x: usize = 0;
    assert(row@.take(0) =~= Seq::empty());
    while x < row.len()
        invariant
            x <= row@.len(),
            n <= x,
            n == row_count(row@.take(x as int), min),
        decreases row.len() - x,
    {
        assert(row@.take(x + 1).drop_last() =~= row@.take(x as int));
        if row[x] >= min {
            n = n + 1;
        }
        x = x + 1;
    }
    assert(row@.take(row@.len() as int) =~= row@);
    n
}

proof fn lemma_layer_take(layer: Seq<Vec<u8>>, min: u8, n: int)
    requires
        0 <= n <= layer.len(),
    ensures
        layer_count(layer.take(n), min) <= layer_count(layer, min),
    decreases layer.len() - n,
{
    if n < layer.len() {
        lemma_layer_take(layer, min, n + 1);
        assert(layer.take(n + 1).drop_last() =~= layer.take(n));
    } else {
        assert(layer.take(n) =~= layer);
    }
}

proof fn lemma_room_take(voxels: Seq<Vec<Vec<u8>>>, min: u8, n: int)
    requires
        0 <= n <= voxels.len(),
    ensures
        room_count(voxels.take(n), min) <= room_count(voxels, min),
    decreases voxels.len() - n,
{
    if n < voxels.len() {
        lemma_room_take(voxels, min, n + 1);
        assert(voxels.take(n + 1).drop_last() =~= voxels.take(n));
    } else {
        assert(voxels.take(n) =~= voxels);
    }
}

fn count_layer(layer: &Vec<Vec<u8>>, min: u8) -> (n: u32)
    requires
        layer_count(layer@, min) <= u32::MAX,
    ensures
        n == layer_count(layer@, min),
{
    let mut n: u32 = 0;
    let mut y: usize = 0;
    assert(layer@.take(0) =~= Seq::empty());
    while y < layer.len()
        invariant
            y <= layer@.len(),
            layer_count(layer@, min) <= u32::MAX,
            n == layer_count(layer@.take(y as int), min),
        decreases layer.len() - y,
    {
        assert(layer@.take(y + 1).drop_last() =~= layer@.take(y as int));
        proof {
            lemma_layer_take(layer@, min, y + 1);
        }
        let more: usize = count_row(&layer[y], min);
        n = n + more as u32;
        y = y + 1;
    }
    assert(layer@.take(layer@.len() as int) =~= layer@);
    n
}

fn count_room(voxels: &Vec<Vec<Vec<u8>>>, min: u8) -> (n: u32)
    requires
        room_count(voxels@, min) <= u32::MAX,
    ensures
        n == room_count(voxels@, min),
{
    let mut n: u32 = 0;
    let mut z: usize = 0;
    assert(voxels@.take(0) =~= Seq::empty());
    while z < voxels.len()
        invariant
            z <= voxels@.len(),
            room_count(voxels@, min) <= u32::MAX,
            n == room_count(voxels@.take(z as int), min),
        decreases voxels.len() - z,
    {
        assert(voxels@.take(z + 1).drop_last() =~= voxels@.take(z as int));
        proof {
            lemma_room_take(voxels@, min, z + 1);
        }
        n = n + count_layer(&voxels[z], min);
        z = z + 1;
    }
    assert(voxels@.take(voxels@.len() as int) =~= voxels@);
    n
}

/// One voxel: its place in the row, the row, the layer, and how many base stations cover it.
#[derive(Debug, Clone, Copy, PartialEq, Eq, Structural)]
pub struct Voxel {
    pub x: usize,
    pub y: usize,
    pub z: usize,
    pub count: u8,
}

/// The voxels of a row.
pub open spec fn row_voxels(row: Seq<u8>, z: int, y: int) -> Seq<Voxel> {
    Seq::new(
        row.len(),
        |x: int| Voxel { x: x as usize, y: y as usize, z: z as usize, count: row[x] },
    )
}

/// The voxels of the first `n` rows of a layer.
pub open spec fn layer_voxels(layer: Seq<Vec<u8>>, z: int, n: nat) -> Seq<Voxel>
    decreases n,
{
    if n == 0 {
        Seq::empty()
    } else {
        layer_voxels(layer, z, (n - 1) as nat) + row_voxels(layer[n - 1]@, z, n - 1)
    }
}

/// The voxels of the first `n` layers.
pub open spec fn room_voxels(voxels: Seq<Vec<Vec<u8>>>, n: nat) -> Seq<Voxel>
    decreases n,
{
    if n == 0 {
        Seq::empty()
    } else {
        room_voxels(voxels, (n - 1) as nat) + layer_voxels(
            voxels[n - 1]@,
            n - 1,
            voxels[n - 1]@.len(),
        )
    }
}

fn push_row(row: &Vec<u8>, z: usize, y: usize, all: &mut Vec<Voxel>)
    ensures
        final(all)@ == old(all)@ + row_voxels(row@, z as int, y as int),
{
    let ghost before = all@;
    let ghost part = row_voxels(row@, z as int, y as int);
    let mut x: usize = 0;
    assert(all@ =~= before + part.take(0));
    while x < row.len()
        invariant
            x <= row@.len(),
            part == row_voxels(row@, z as int, y as int),
            all@ == before + part.take(x as int),
        decreases row.len() - x,
    {
        all.push(Voxel { x, y, z, count: row[x] });
        assert(all@ =~= before + part.take(x + 1));
        x = x + 1;
    }
    assert(part.take(part.len() as int) =~= part);
}

fn push_layer(layer: &Vec<Vec<u8>>, z: usize, all: &mut Vec<Voxel>)
    ensures
        final(all)@ == old(all)@ + layer_voxels(layer@, z as int, layer@.len()),
{
    let ghost before = all@;
    let mut y: usize = 0;
    assert(all@ =~= before + layer_voxels(layer@, z as int, 0));
    while y < layer.len()
        invariant
            y <= layer@.len(),
            all@ == before + layer_voxels(layer@, z as int, y as nat),
        decreases layer.len() - y,
    {
        push_row(&layer[y], z, y, all);
        assert(all@ =~= before + layer_voxels(layer@, z as int, (y + 1) as nat));
        y = y + 1;
    }
}

impl CoverageResult {
    /// How many voxels are covered by at least `min_bs` base stations, and how many there are.
    pub fn coverage_ratio(&self, min_bs: u8) -> (counts: (u32, u32))
        requires
            room_count(self.voxels@, 0) <= u32::MAX,
        ensures
            counts.0 == room_count(self.voxels@, min_bs),
            counts.1 == room_count(self.voxels@, 0),
            counts.0 <= counts.1,
    {
        proof {
            law_coverage_falls(self.voxels@, 0, min_bs);
        }
        (count_room(&self.voxels, min_bs), count_room(&self.voxels, 0))
    }

    /// All voxels, layer by layer and row by row.
    pub fn iter_voxels(&self) -> (all: Vec<Voxel>)
        ensures
            all@ == room_voxels(self.voxels@, self.voxels@.len()),
    {
        let mut all: Vec<Voxel> = Vec::new();
        let mut z: usize = 0;
        while z < self.voxels.len()
            invariant
                z <= self.voxels@.len(),
                all@ == room_voxels(self.voxels@, z as nat),
            decreases self.voxels.len() - z,
        {
            push_layer(&self.voxels[z], z, &mut all);
            z = z + 1;
        }
        all
    }
}

// ---------------------------------------------------------------------------
// Scenes
// ---------------------------------------------------------------------------

/// A base station as a scene stores it.
#[derive(Debug, Clone, Copy)]
pub struct SceneBaseStation {
    pub x: u32,
    pub y: u32,
    pub z: u32,
    pub azimuth_deg: u32,
    pub elevation_deg: u32,
}

/// A base station as a scene stores it.
pub open spec fn stored(bs: BaseStation) -> SceneBaseStation {
    SceneBaseStation {
        x: bs.pos[0],
        y: bs.pos[1],
        z: bs.pos[2],
        azimuth_deg: bs.azimuth_deg,
        elevation_deg: bs.elevation_deg,
    }
}

/// The base station that a scene stores.
pub open spec fn restored(s: SceneBaseStation) -> BaseStation {
    BaseStation {
        pos: [s.x, s.y, s.z],
        azimuth_deg: s.azimuth_deg,
        elevation_deg: s.elevation_deg,
    }
}

/// A base station that was stored comes back as it was.
pub proof fn law_stored_comes_back(bs: BaseStation)
    ensures
        restored(stored(bs)) == bs,
{
    assert(restored(stored(bs)).pos =~= bs.pos);
}

/// The base stations of a scene are those that it was made with.
pub proof fn law_scene_keeps_stations(base_stations: Seq<BaseStation>)
    ensures
        ({
            let kept = Seq::new(base_stations.len(), |i: int| stored(base_stations[i]));
            Seq::new(kept.len(), |i: int| restored(kept[i])) == base_stations
        }),
{
    let kept = Seq::new(base_stations.len(), |i: int| stored(base_stations[i]));
    assert forall|i: int| 0 <= i < kept.len() implies restored(#[trigger] kept[i])
        == base_stations[i] by {
        law_stored_comes_back(base_stations[i]);
    }
    assert(Seq::new(kept.len(), |i: int| restored(kept[i])) =~= base_stations);
}

/// Base stations as a scene stores them.
pub fn store_stations(base_stations: &Vec<BaseStation>) -> (r: Vec<SceneBaseStation>)
    ensures
        r@ == Seq::new(base_stations@.len(), |i: int| stored(base_stations@[i])),
{
    let mut r: Vec<SceneBaseStation> = Vec::new();
    let mut i: usize = 0;
    while i < base_stations.len()
        invariant
            i <= base_stations@.len(),
            r@ == Seq::new(i as nat, |k: int| stored(base_stations@[k])),
        decreases base_stations.len() - i,
    {
        let bs = base_stations[i];
        r.push(
            SceneBaseStation {
                x: bs.pos[0],
                y: bs.pos[1],
                z: bs.pos[2],
                azimuth_deg: bs.azimuth_deg,
                elevation_deg: bs.elevation_deg,
            },
        );
        i = i + 1;
        assert(r@ =~= Seq::new(i as nat, |k: int| stored(base_stations@[k])));
    }
    r
}

/// The base stations that a scene stores.
pub fn restore_stations(stored_stations: &Vec<SceneBaseStation>) -> (r: Vec<BaseStation>)
    ensures
        r@ == Seq::new(stored_stations@.len(), |i: int| restored(stored_stations@[i])),
{
    let mut r: Vec<BaseStation> = Vec::new();
    let mut i: usize = 0;
    while i < stored_stations.len()
        invariant
            i <= stored_stations@.len(),
            r@ == Seq::new(i as nat, |k: int| restored(stored_stations@[k])),
        decreases stored_stations.len() - i,
    {
        let s = stored_stations[i];
        let bs = BaseStation {
            pos: [s.x, s.y, s.z],
            azimuth_deg: s.azimuth_deg,
            elevation_deg: s.elevation_deg,
        };
        assert(bs.pos@ =~= restored(s).pos@);
        r.push(bs);
        i = i + 1;
        assert(r@ =~= Seq::new(i as nat, |k: int| restored(stored_stations@[k])));
    }
    r
}

/// The room, what is shown and the base stations.
pub struct Scene {
    pub room_x: u32,
    pub room_y: u32,
    pub room_z: u32,
    pub resolution: u32,
    pub center_origin: bool,
    pub receiver_fov_enabled: bool,
    pub tilt_compensation_enabled: bool,
    pub max_tilt_angle: u32,
    pub max_bs_distance: u32,
    pub show_coverage: [bool; 5],
    pub base_stations: Vec<SceneBaseStation>,
}

/// A switch that is on where a scene does not say.
pub fn default_true() -> (r: bool)
    ensures
        r,
{
    true
}

/// The largest tilt where a scene does not say, 10 degrees.
pub fn default_tilt() -> (bits: u32)
    ensures
        bits == 0x4120_0000,
{
    0x4120_0000
}

/// The range of base stations where a scene does not say, 5 metres.
pub fn default_max_dist() -> (bits: u32)
    ensures
        bits == 0x40a0_0000,
{
    0x40a0_0000
}

impl Scene {
    /// A scene of the given room and base stations.
    pub fn new(
        room_x: u32,
        room_y: u32,
        room_z: u32,
        resolution: u32,
        center_origin: bool,
        receiver_fov_enabled: bool,
        tilt_compensation_enabled: bool,
        max_tilt_angle: u32,
        max_bs_distance: u32,
        show_coverage: [bool; 5],
        base_stations: &Vec<BaseStation>,
    ) -> (scene: Scene)
        ensures
            scene.room_x == room_x,
            scene.room_y == room_y,
            scene.room_z == room_z,
            scene.resolution == resolution,
            scene.center_origin == center_origin,
            scene.receiver_fov_enabled == receiver_fov_enabled,
            scene.tilt_compensation_enabled == tilt_compensation_enabled,
            scene.max_tilt_angle == max_tilt_angle,
            scene.max_bs_distance == max_bs_distance,
            scene.show_coverage == show_coverage,
            scene.base_stations@ == Seq::new(
                base_stations@.len(),
                |i: int| stored(base_stations@[i]),
            ),
    {
        Scene {
            room_x,
            room_y,
            room_z,
            resolution,
            center_origin,
            receiver_fov_enabled,
            tilt_compensation_enabled,
            max_tilt_angle,
            max_bs_distance,
            show_coverage,
            base_stations: store_stations(base_stations),
        }
    }

    /// The base stations of the scene.
    pub fn base_stations(&self) -> (r: Vec<BaseStation>)
        ensures
            r@ == Seq::new(self.base_stations@.len(), |i: int| restored(self.base_stations@[i])),
    {
        restore_stations(&self.base_stations)
    }
}

/// Each limit alone keeps a voxel from being covered: it has to be in front of the base station,
/// within range, within half the sweep to the side and within half the sweep up or down, within
/// the view of the receiver where that counts, and in sight where obstacles count.
pub proof fn law_every_limit_counts(s: Sighting, limits: SweepLimits, obstacles: bool)
    ensures
        covers(s, limits, obstacles) ==> {
            &&& !float_bits::single_at_most(s.ahead, 0)
            &&& !float_bits::single_less(limits.distance, s.distance)
            &&& float_bits::single_less(s.horizontal, limits.horizontal)
            &&& float_bits::single_less(s.vertical, limits.vertical)
            &&& limits.receiver matches Some(half) ==> !float_bits::single_less(half, s.receiver)
            &&& !(obstacles && s.blocked)
        },
{
}

/// A voxel that is in front, in range, and nearer to the axis than half of either sweep is
/// covered, unless the receiver looks away or an obstacle hides it.
pub proof fn law_within_sweep_is_covered(s: Sighting, limits: SweepLimits, obstacles: bool)
    requires
        float_bits::single_less(0, s.ahead),
        float_bits::single_at_most(s.distance, limits.distance),
        float_bits::single_less(s.horizontal, limits.horizontal),
        float_bits::single_less(s.vertical, limits.vertical),
        limits.receiver matches Some(half) ==> float_bits::single_at_most(s.receiver, half),
    ensures
        covers(s, limits, false),
        covers(s, limits, obstacles) <==> !obstacles || !s.blocked,
{
}

/// A wider sweep, a longer range or a better receiver never takes coverage away, and neither does
/// a voxel that is nearer and closer to the axis.
pub proof fn law_coverage_grows(
    s: Sighting,
    near: Sighting,
    limits: SweepLimits,
    wide: SweepLimits,
    obstacles: bool,
)
    requires
        covers(s, limits, obstacles),
        float_bits::single_at_most(s.ahead, near.ahead),
        float_bits::single_at_most(near.distance, s.distance),
        float_bits::single_at_most(near.horizontal, s.horizontal),
        float_bits::single_at_most(near.vertical, s.vertical),
        float_bits::single_at_most(near.receiver, s.receiver),
        near.blocked ==> s.blocked,
        float_bits::single_at_most(limits.distance, wide.distance),
        float_bits::single_at_most(limits.horizontal, wide.horizontal),
        float_bits::single_at_most(limits.vertical, wide.vertical),
        wide.receiver matches Some(half) ==> (limits.receiver matches Some(least)
            && float_bits::single_at_most(least, half)),
    ensures
        covers(near, wide, obstacles),
{
}

/// A voxel counts every base station that covers it, once: it counts all if and only if all do,
/// and none if and only if none does. Up to 255 are told apart.
pub proof fn law_stations_counted(
    grids: Seq<SightGrid>,
    limits: SweepLimits,
    obstacles: bool,
    z: int,
    y: int,
    x: int,
    n: nat,
)
    requires
        n <= grids.len(),
    ensures
        times_covered(grids, limits, obstacles, z, y, x, n) <= n,
        times_covered(grids, limits, obstacles, z, y, x, n) == n <==> forall|k: int|
            0 <= k < n ==> covers((#[trigger] grids[k]).cells@[z]@[y]@[x], limits, obstacles),
        times_covered(grids, limits, obstacles, z, y, x, n) == 0 <==> forall|k: int|
            0 <= k < n ==> !covers((#[trigger] grids[k]).cells@[z]@[y]@[x], limits, obstacles),
        forall|c: nat| c <= 255 ==> #[trigger] level(c) == c,
        forall|c: nat| c > 255 ==> #[trigger] level(c) == 255,
    decreases n,
{
    if n > 0 {
        law_stations_counted(grids, limits, obstacles, z, y, x, (n - 1) as nat);
        let last = covers(grids[n - 1].cells@[z]@[y]@[x], limits, obstacles);
        let before = times_covered(grids, limits, obstacles, z, y, x, (n - 1) as nat);
        assert(times_covered(grids, limits, obstacles, z, y, x, n) == before + (if last {
            1nat
        } else {
            0
        }));
    }
}

/// A base station counts at a voxel as it sees that very voxel: what it sees of the others does
/// not matter, and neither does the order of the base stations.
pub proof fn law_voxels_apart(
    one: SightGrid,
    other: SightGrid,
    limits: SweepLimits,
    obstacles: bool,
    z: int,
    y: int,
    x: int,
)
    ensures
        one.cells@[z]@[y]@[x] == other.cells@[z]@[y]@[x] ==> times_covered(
            seq![one],
            limits,
            obstacles,
            z,
            y,
            x,
            1,
        ) == times_covered(seq![other], limits, obstacles, z, y, x, 1),
        times_covered(seq![one, other], limits, obstacles, z, y, x, 2) == times_covered(
            seq![other, one],
            limits,
            obstacles,
            z,
            y,
            x,
            2,
        ),
{
    reveal_with_fuel(times_covered, 3);
}

/// Inside an obstacle nothing is covered, and elsewhere the voxel counts the base stations that
/// cover it past the obstacles.
pub proof fn law_nothing_inside(
    grids: Seq<SightGrid>,
    limits: SweepLimits,
    inside: Seq<Vec<Vec<bool>>>,
    z: int,
    y: int,
    x: int,
)
    requires
        grids.len() <= 255,
    ensures
        inside[z]@[y]@[x] ==> level_with_obstacles(grids, limits, inside, z, y, x) == 0,
        !inside[z]@[y]@[x] ==> level_with_obstacles(grids, limits, inside, z, y, x)
            == times_covered(grids, limits, true, z, y, x, grids.len()),
{
    law_stations_counted(grids, limits, true, z, y, x, grids.len());
}

/// The voxels of a row count one by one: each if at least as many base stations cover it as asked
/// for. Layers count their rows, and rooms their layers.
pub proof fn law_voxels_counted(
    row: Seq<u8>,
    last: u8,
    layer: Seq<Vec<u8>>,
    last_row: Vec<u8>,
    room: Seq<Vec<Vec<u8>>>,
    last_layer: Vec<Vec<u8>>,
    min: u8,
)
    ensures
        row_count(row.push(last), min) == row_count(row, min) + (if last >= min {
            1int
        } else {
            0
        }),
        layer_count(layer.push(last_row), min) == layer_count(layer, min) + row_count(
            last_row@,
            min,
        ),
        room_count(room.push(last_layer), min) == room_count(room, min) + layer_count(
            last_layer@,
            min,
        ),
        row_count(Seq::empty(), min) == 0,
        layer_count(Seq::empty(), min) == 0,
        room_count(Seq::empty(), min) == 0,
{
    assert(row.push(last).drop_last() =~= row);
    assert(layer.push(last_row).drop_last() =~= layer);
    assert(room.push(last_layer).drop_last() =~= room);
}

/// Asked for none, all voxels of a row count; it has as many as it is long.
pub proof fn law_all_counted(row: Seq<u8>)
    ensures
        row_count(row, 0) == row.len(),
        (forall|i: int| 0 <= i < row.len() ==> #[trigger] row[i] >= 3) ==> row_count(row, 3)
            == row.len(),
    decreases row.len(),
{
    if row.len() > 0 {
        let rest = row.drop_last();
        law_all_counted(rest);
        if forall|i: int| 0 <= i < row.len() ==> #[trigger] row[i] >= 3 {
            assert forall|i: int| 0 <= i < rest.len() implies #[trigger] rest[i] >= 3 by {
                assert(rest[i] == row[i]);
            }
            assert(row[row.len() - 1] >= 3);
        }
    }
}

proof fn lemma_layer_voxels(layer: Seq<Vec<u8>>, z: int, n: nat)
    requires
        n <= layer.len(),
        layer.len() <= usize::MAX,
        forall|y: int| 0 <= y < layer.len() ==> (#[trigger] layer[y])@.len() <= usize::MAX,
        0 <= z <= usize::MAX,
    ensures
        forall|k: int|
            0 <= k < layer_voxels(layer, z, n).len() ==> {
                let v = #[trigger] layer_voxels(layer, z, n)[k];
                v.z == z && v.y < n && v.x < layer[v.y as int]@.len() && v.count
                    == layer[v.y as int]@[v.x as int]
            },
        forall|a: int, b: int|
            0 <= a < b < layer_voxels(layer, z, n).len() ==> {
                let v = #[trigger] layer_voxels(layer, z, n)[a];
                let w = #[trigger] layer_voxels(layer, z, n)[b];
                v.y < w.y || (v.y == w.y && v.x < w.x)
            },
        forall|y: int, x: int|
            0 <= y < n && 0 <= x < layer[y]@.len() ==> layer_voxels(layer, z, n).contains(
                Voxel {
                    x: x as usize,
                    y: y as usize,
                    z: z as usize,
                    count: #[trigger] layer[y]@[x],
                },
            ),
    decreases n,
{
    if n > 0 {
        let m = (n - 1) as nat;
        lemma_layer_voxels(layer, z, m);
        let before = layer_voxels(layer, z, m);
        let row = row_voxels(layer[m as int]@, z, m as int);
        let all = layer_voxels(layer, z, n);
        assert(all == before + row);
        assert(layer[m as int]@.len() <= usize::MAX);
        assert forall|a: int, b: int| 0 <= a < b < all.len() implies {
            let v = #[trigger] all[a];
            let w = #[trigger] all[b];
            v.y < w.y || (v.y == w.y && v.x < w.x)
        } by {
            if b < before.len() {
                assert(all[a] == before[a] && all[b] == before[b]);
            } else if a < before.len() {
                assert(all[a] == before[a]);
                assert(all[b] == row[b - before.len()]);
            } else {
                assert(all[a] == row[a - before.len()]);
                assert(all[b] == row[b - before.len()]);
            }
        }
        assert forall|y: int, x: int| 0 <= y < n && 0 <= x < layer[y]@.len() implies all.contains(
            Voxel {
                x: x as usize,
                y: y as usize,
                z: z as usize,
                count: #[trigger] layer[y]@[x],
            },
        ) by {
            let v = Voxel { x: x as usize, y: y as usize, z: z as usize, count: layer[y]@[x] };
            if y < m {
                assert(before.contains(v));
                let k = before.index_of(v);
                assert(all[k] == v);
            } else {
                assert(row[x] == v);
                assert(all[before.len() + x] == v);
            }
        }
    }
}

/// The voxels that are listed are those of the room: each has the count of its own place, every
/// place of every row and layer is listed, and they come by layers, in a layer by rows and in a row
/// by places.
pub proof fn law_voxels_listed(voxels: Seq<Vec<Vec<u8>>>, n: nat)
    requires
        n <= voxels.len(),
        voxels.len() <= usize::MAX,
        forall|z: int| 0 <= z < voxels.len() ==> (#[trigger] voxels[z])@.len() <= usize::MAX,
        forall|z: int, y: int|
            0 <= z < voxels.len() && 0 <= y < voxels[z]@.len() ==> (#[trigger] voxels[z]@[y])@.len()
                <= usize::MAX,
    ensures
        forall|k: int|
            0 <= k < room_voxels(voxels, n).len() ==> {
                let v = #[trigger] room_voxels(voxels, n)[k];
                v.z < n && v.y < voxels[v.z as int]@.len() && v.x
                    < voxels[v.z as int]@[v.y as int]@.len() && v.count
                    == voxels[v.z as int]@[v.y as int]@[v.x as int]
            },
        forall|a: int, b: int|
            0 <= a < b < room_voxels(voxels, n).len() ==> {
                let v = #[trigger] room_voxels(voxels, n)[a];
                let w = #[trigger] room_voxels(voxels, n)[b];
                v.z < w.z || (v.z == w.z && (v.y < w.y || (v.y == w.y && v.x < w.x)))
            },
        forall|z: int, y: int, x: int|
            0 <= z < n && 0 <= y < voxels[z]@.len() && 0 <= x < voxels[z]@[y]@.len() ==> room_voxels(
                voxels,
                n,
            ).contains(
                Voxel {
                    x: x as usize,
                    y: y as usize,
                    z: z as usize,
                    count: #[trigger] voxels[z]@[y]@[x],
                },
            ),
    decreases n,
{
    if n > 0 {
        let m = (n - 1) as nat;
        law_voxels_listed(voxels, m);
        let layer = voxels[m as int]@;
        assert forall|y: int| 0 <= y < layer.len() implies (#[trigger] layer[y])@.len()
            <= usize::MAX by {
            assert(voxels[m as int]@[y]@.len() <= usize::MAX);
        }
        lemma_layer_voxels(layer, m as int, layer.len());
        let before = room_voxels(voxels, m);
        let more = layer_voxels(layer, m as int, layer.len());
        let all = room_voxels(voxels, n);
        assert(all == before + more);
        assert forall|k: int| 0 <= k < all.len() implies {
            let v = #[trigger] all[k];
            v.z < n && v.y < voxels[v.z as int]@.len() && v.x < voxels[v.z as int]@[v.y as int]@.len()
                && v.count == voxels[v.z as int]@[v.y as int]@[v.x as int]
        } by {
            if k < before.len() {
                assert(all[k] == before[k]);
            } else {
                assert(all[k] == more[k - before.len()]);
            }
        }
        assert forall|a: int, b: int| 0 <= a < b < all.len() implies {
            let v = #[trigger] all[a];
            let w = #[trigger] all[b];
            v.z < w.z || (v.z == w.z && (v.y < w.y || (v.y == w.y && v.x < w.x)))
        } by {
            if b < before.len() {
                assert(all[a] == before[a] && all[b] == before[b]);
            } else if a < before.len() {
                assert(all[a] == before[a]);
                assert(all[b] == more[b - before.len()]);
            } else {
                assert(all[a] == more[a - before.len()]);
                assert(all[b] == more[b - before.len()]);
            }
        }
        assert forall|z: int, y: int, x: int|
            0 <= z < n && 0 <= y < voxels[z]@.len() && 0 <= x < voxels[z]@[y]@.len() implies all.contains(
            Voxel {
                x: x as usize,
                y: y as usize,
                z: z as usize,
                count: #[trigger] voxels[z]@[y]@[x],
            },
        ) by {
            let v = Voxel {
                x: x as usize,
                y: y as usize,
                z: z as usize,
                count: voxels[z]@[y]@[x],
            };
            if z < m {
                assert(before.contains(v));
                let k = before.index_of(v);
                assert(all[k] == v);
            } else {
                assert(layer[y]@[x] == v.count);
                assert(more.contains(v));
                let k = more.index_of(v);
                assert(all[before.len() + k] == v);
            }
        }
    }
}

/// A base station is stored with its own coordinates, in order, and with its own angles.
pub proof fn law_station_stored(bs: BaseStation, s: SceneBaseStation)
    ensures
        bs.pos == [stored(bs).x, stored(bs).y, stored(bs).z],
        stored(bs).azimuth_deg == bs.azimuth_deg,
        stored(bs).elevation_deg == bs.elevation_deg,
        restored(s).pos == [s.x, s.y, s.z],
        restored(s).azimuth_deg == s.azimuth_deg,
        restored(s).elevation_deg == s.elevation_deg,
{
    assert([stored(bs).x, stored(bs).y, stored(bs).z] =~= bs.pos);
}

} // verus!

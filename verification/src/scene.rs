//! The random scene: the ground, a grid of small spheres with random places
//! and materials, and three large spheres.
use crate::fixed::{clamp_raw, sat_add, sat_mul, Fixed, HALF_RAW, ONE_RAW};
use crate::hittable_list::HittableList;
use crate::material::{Dielectric, Lambertian, MaterialKind, MaterialView, Metal};
use crate::rtweekend;
use crate::rtweekend::clamped;
use crate::sphere::{Sphere, SphereView};
use crate::vec3::{v3_length, v3_mul, v3_sub, Vec3, V3};
use crate::{Color3, Point3};
use vstd::prelude::*;

verus! {

/// The raw integer of `0.1`, rounded down.
pub const TENTH_RAW: i64 = 429_496_729;

/// The raw integer of `0.2`, rounded down: the radius of a small sphere and
/// the height of its centre.
pub const FIFTH_RAW: i64 = 858_993_459;

/// The raw integer of `0.4`, rounded down.
pub const TWO_FIFTHS_RAW: i64 = 1_717_986_918;

/// The raw integer of `0.6`, rounded down.
pub const THREE_FIFTHS_RAW: i64 = 2_576_980_377;

/// The raw integer of `0.7`, rounded down.
pub const SEVEN_TENTHS_RAW: i64 = 3_006_477_107;

/// The raw integer of `0.9`, rounded down: the distance that a small sphere
/// keeps from the places where the large ones stand, and the width of the
/// random part of its place.
pub const NINE_TENTHS_RAW: i64 = 3_865_470_566;

/// The raw integer of `1.5`, the refractive index of glass.
pub const GLASS_INDEX_RAW: i64 = 0x1_8000_0000;

/// The raw integer of `1000`, the radius of the ground.
pub const GROUND_RADIUS_RAW: i64 = 1000 * 0x1_0000_0000;

/// The number of rows and of columns of small spheres on each side of the
/// origin.
pub const GRID_HALF: i32 = 11;

/// The number of rows, and of columns, of the grid.
pub const GRID_SIDE: usize = 22;

/// The number of cells of the grid.
pub const GRID_CELLS: usize = 484;

/// The ground: a large diffuse grey sphere below the scene.
pub open spec fn ground() -> SphereView {
    SphereView {
        center: V3 { x: 0, y: -(GROUND_RADIUS_RAW as int), z: 0 },
        radius: GROUND_RADIUS_RAW as int,
        material: MaterialView::Lambertian {
            albedo: V3 { x: HALF_RAW as int, y: HALF_RAW as int, z: HALF_RAW as int },
        },
    }
}

/// The large glass sphere in the middle.
pub open spec fn glass_feature() -> SphereView {
    SphereView {
        center: V3 { x: 0, y: ONE_RAW as int, z: 0 },
        radius: ONE_RAW as int,
        material: MaterialView::Dielectric { ir: GLASS_INDEX_RAW as int },
    }
}

/// The large diffuse sphere behind it.
pub open spec fn diffuse_feature() -> SphereView {
    SphereView {
        center: V3 { x: -4 * ONE_RAW, y: ONE_RAW as int, z: 0 },
        radius: ONE_RAW as int,
        material: MaterialView::Lambertian {
            albedo: V3 {
                x: TWO_FIFTHS_RAW as int,
                y: FIFTH_RAW as int,
                z: TENTH_RAW as int,
            },
        },
    }
}

/// The large metal sphere in front of it.
pub open spec fn metal_feature() -> SphereView {
    SphereView {
        center: V3 { x: 4 * ONE_RAW, y: ONE_RAW as int, z: 0 },
        radius: ONE_RAW as int,
        material: MaterialView::Metal {
            albedo: V3 {
                x: SEVEN_TENTHS_RAW as int,
                y: THREE_FIFTHS_RAW as int,
                z: HALF_RAW as int,
            },
            fuzz: 0,
        },
    }
}

/// The place where a large sphere stands, at the height of the centres of
/// the small spheres: the point below its centre at the height `0.2`.
pub open spec fn foot(feature: SphereView) -> V3 {
    V3 { x: feature.center.x, y: FIFTH_RAW as int, z: feature.center.z }
}

/// Whether `center` is farther than `0.9` from `other`.
pub open spec fn keeps_clear(center: V3, other: V3) -> bool {
    v3_length(v3_sub(center, other)) > NINE_TENTHS_RAW
}

/// Whether `center` is farther than `0.9` from the place where each of the
/// three large spheres stands: from `(0, 0.2, 0)`, `(-4, 0.2, 0)` and
/// `(4, 0.2, 0)`.
pub open spec fn clear_of_features(center: V3) -> bool {
    &&& keeps_clear(center, foot(glass_feature()))
    &&& keeps_clear(center, foot(diffuse_feature()))
    &&& keeps_clear(center, foot(metal_feature()))
}

/// The place of the small sphere of the grid cell `(a, b)` for the random
/// numbers `dx` and `dz`: `(a + 0.9 * dx, 0.2, b + 0.9 * dz)`.
pub open spec fn grid_place(a: int, b: int, dx: int, dz: int) -> V3 {
    V3 {
        x: sat_add(clamp_raw(a * ONE_RAW), sat_mul(NINE_TENTHS_RAW as int, dx)),
        y: FIFTH_RAW as int,
        z: sat_add(clamp_raw(b * ONE_RAW), sat_mul(NINE_TENTHS_RAW as int, dz)),
    }
}

/// The kinds of material of a small sphere.
#[derive(Clone, Copy, Debug, PartialEq, Eq, Structural)]
pub enum SmallKind {
    Diffuse,
    Metal,
    Glass,
}

/// The kind that the random number `choose` selects: diffuse below `0.8`,
/// metal below `0.95`, else glass.
pub open spec fn small_kind(choose: int) -> SmallKind {
    if 5 * choose < 4 * ONE_RAW {
        SmallKind::Diffuse
    } else if 20 * choose < 19 * ONE_RAW {
        SmallKind::Metal
    } else {
        SmallKind::Glass
    }
}

/// What is drawn from the random source for one cell of the grid, in raw
/// integers: the number that selects the kind of material, the two numbers
/// that place the sphere within its cell, the two colours whose product is
/// the albedo of a diffuse sphere, and the albedo and the fuzz of a metal
/// one. A cell uses what its sphere needs.
pub struct CellDrawView {
    pub choose: int,
    pub dx: int,
    pub dz: int,
    pub first: V3,
    pub second: V3,
    pub metal: V3,
    pub fuzz: int,
}

/// What is drawn from the random source for one cell of the grid.
#[derive(Clone, Copy, Debug)]
pub struct CellDraw {
    pub choose_material: Fixed,
    pub dx: Fixed,
    pub dz: Fixed,
    pub first: Color3,
    pub second: Color3,
    pub metal: Color3,
    pub fuzz: Fixed,
}

impl View for CellDraw {
    type V = CellDrawView;

    open spec fn view(&self) -> CellDrawView {
        CellDrawView {
            choose: self.choose_material@,
            dx: self.dx@,
            dz: self.dz@,
            first: self.first@,
            second: self.second@,
            metal: self.metal@,
            fuzz: self.fuzz@,
        }
    }
}

/// The raw integers of a list of draws.
pub open spec fn cell_draws_view(draws: Seq<CellDraw>) -> Seq<CellDrawView> {
    draws.map_values(|d: CellDraw| d@)
}

/// Whether each component is at least `low` and less than `high`.
pub open spec fn components_within(v: V3, low: int, high: int) -> bool {
    low <= v.x < high && low <= v.y < high && low <= v.z < high
}

/// Whether `draw` can come from the random source: the three numbers and
/// the components of the two colours are at least zero and less than one,
/// the components of the albedo of the metal are at least `0.5` and less
/// than one, and its fuzz is at least zero and less than `0.5`.
pub open spec fn valid_cell_draw(draw: CellDrawView) -> bool {
    &&& 0 <= draw.choose < ONE_RAW
    &&& 0 <= draw.dx < ONE_RAW
    &&& 0 <= draw.dz < ONE_RAW
    &&& components_within(draw.first, 0, ONE_RAW as int)
    &&& components_within(draw.second, 0, ONE_RAW as int)
    &&& components_within(draw.metal, HALF_RAW as int, ONE_RAW as int)
    &&& 0 <= draw.fuzz < HALF_RAW
}

/// The material of the small sphere of a cell: by the kind that the draw
/// selects, a diffuse one whose albedo is the product of the two colours, a
/// metal with the drawn albedo and fuzz, or glass of index `1.5`.
pub open spec fn small_material(draw: CellDrawView) -> MaterialView {
    match small_kind(draw.choose) {
        SmallKind::Diffuse => MaterialView::Lambertian { albedo: v3_mul(draw.first, draw.second) },
        SmallKind::Metal => MaterialView::Metal {
            albedo: draw.metal,
            fuzz: clamped(draw.fuzz, 0, ONE_RAW as int),
        },
        SmallKind::Glass => MaterialView::Dielectric { ir: GLASS_INDEX_RAW as int },
    }
}

/// The small sphere of the cell `(a, b)`: of radius `0.2` at its place on
/// the grid, or none where that place is not clear of the large spheres.
pub open spec fn cell_sphere(a: int, b: int, draw: CellDrawView) -> Option<SphereView> {
    let center = grid_place(a, b, draw.dx, draw.dz);
    if clear_of_features(center) {
        Some(SphereView { center, radius: FIFTH_RAW as int, material: small_material(draw) })
    } else {
        None
    }
}

/// The row of the cell of index `k`: the cells are counted row by row.
pub open spec fn cell_row(k: int) -> int {
    k / (GRID_SIDE as int) - GRID_HALF
}

/// The column of the cell of index `k`.
pub open spec fn cell_column(k: int) -> int {
    k % (GRID_SIDE as int) - GRID_HALF
}

/// The small spheres of the first `n` cells, in the order of the cells.
pub open spec fn small_spheres(draws: Seq<CellDrawView>, n: int) -> Seq<SphereView>
    decreases n,
{
    if n <= 0 {
        Seq::empty()
    } else {
        let before = small_spheres(draws, n - 1);
        match cell_sphere(cell_row(n - 1), cell_column(n - 1), draws[n - 1]) {
            Some(sphere) => before.push(sphere),
            None => before,
        }
    }
}

/// The number of cells that get a draw: all of them where there are draws
/// enough, else as many as there are draws.
pub open spec fn cell_count(draws: int) -> int {
    if draws < GRID_CELLS {
        draws
    } else {
        GRID_CELLS as int
    }
}

/// The scene for the given draws: the ground, then cell by cell, row by
/// row, the small sphere of each cell whose place is clear, then the three
/// large spheres of glass, of a diffuse material and of metal.
pub open spec fn scene_of(draws: Seq<CellDrawView>) -> Seq<SphereView> {
    seq![ground()] + small_spheres(draws, cell_count(draws.len() as int)) + seq![
        glass_feature(),
        diffuse_feature(),
        metal_feature(),
    ]
}

/// Whether `world` is the scene for some draws that the random source can
/// give, one for each cell of the grid.
pub open spec fn is_random_scene(world: Seq<SphereView>) -> bool {
    exists|draws: Seq<CellDrawView>|
        {
            &&& draws.len() == GRID_CELLS
            &&& forall|k: int| 0 <= k < draws.len() ==> valid_cell_draw(#[trigger] draws[k])
            &&& world == #[trigger] scene_of(draws)
        }
}

/// The small spheres of the first `n` cells do not depend on the draws of
/// later cells.
pub proof fn lemma_small_spheres_of_prefix(
    draws: Seq<CellDrawView>,
    longer: Seq<CellDrawView>,
    n: int,
)
    requires
        n <= draws.len() <= longer.len(),
        forall|k: int| 0 <= k < draws.len() ==> draws[k] == longer[k],
    ensures
        small_spheres(longer, n) == small_spheres(draws, n),
    decreases n,
{
    if n > 0 {
        lemma_small_spheres_of_prefix(draws, longer, n - 1);
    }
}

/// The raw integers of a sphere that may be missing.
pub open spec fn sphere_view(r: Option<Sphere>) -> Option<SphereView> {
    match r {
        Some(sphere) => Some(sphere@),
        None => None,
    }
}

/// The vector with the given raw integers.
fn vector(x: i64, y: i64, z: i64) -> (r: Vec3)
    ensures
        r@ == (V3 { x: clamp_raw(x as int), y: clamp_raw(y as int), z: clamp_raw(z as int) }),
{
    Vec3::new(Fixed::from_raw(x), Fixed::from_raw(y), Fixed::from_raw(z))
}

/// Whether `center` is farther than `0.9` from `other`.
fn is_clear_of(center: &Point3, other: Point3) -> (r: bool)
    ensures
        r == keeps_clear(center@, other@),
{
    (*center - other).length().gt(Fixed::from_raw(NINE_TENTHS_RAW))
}

impl SmallKind {
    /// The kind that the random number `choose` selects.
    pub fn pick(choose: Fixed) -> (r: Self)
        ensures
            r == small_kind(choose@),
    {
        let raw: i128 = choose.raw() as i128;
        let one: i128 = ONE_RAW as i128;
        if 5 * raw < 4 * one {
            SmallKind::Diffuse
        } else if 20 * raw < 19 * one {
            SmallKind::Metal
        } else {
            SmallKind::Glass
        }
    }
}

impl CellDraw {
    /// The material of the small sphere of a cell.
    pub fn material(&self) -> (r: MaterialKind)
        ensures
            r@ == small_material(self@),
    {
        match SmallKind::pick(self.choose_material) {
            SmallKind::Diffuse => MaterialKind::Lambertian(
                Lambertian::new(self.first * self.second),
            ),
            SmallKind::Metal => MaterialKind::Metal(Metal::new(self.metal, self.fuzz)),
            SmallKind::Glass => MaterialKind::Dielectric(
                Dielectric::new(Fixed::from_raw(GLASS_INDEX_RAW)),
            ),
        }
    }

    /// Draws from the random source for the cell `(a, b)`: the number that
    /// selects the material and the two numbers that place the sphere; and,
    /// where that place is clear of the large spheres, what the selected
    /// material needs. What is not needed is not drawn.
    pub fn random(a: i32, b: i32) -> (r: Self)
        ensures
            valid_cell_draw(r@),
    {
        let choose_material: Fixed = rtweekend::random();
        let dx: Fixed = rtweekend::random();
        let dz: Fixed = rtweekend::random();
        let half: Fixed = Fixed::from_raw(HALF_RAW);
        let mut draw: CellDraw = CellDraw {
            choose_material,
            dx,
            dz,
            first: Color3::zero(),
            second: Color3::zero(),
            metal: Color3::new(half, half, half),
            fuzz: Fixed::zero(),
        };
        if HittableList::is_clear(&HittableList::grid_center(a, b, dx, dz)) {
            match SmallKind::pick(choose_material) {
                SmallKind::Diffuse => {
                    draw.first = Color3::random_vec3();
                    draw.second = Color3::random_vec3();
                },
                SmallKind::Metal => {
                    draw.metal = Color3::random_vec3_in_range(half, Fixed::one());
                    draw.fuzz = rtweekend::random_in_range(Fixed::zero(), half);
                },
                SmallKind::Glass => {},
            }
        }
        draw
    }
}

impl HittableList {
    /// The place of the small sphere of the grid cell `(a, b)` for the
    /// random numbers `dx` and `dz`.
    pub fn grid_center(a: i32, b: i32, dx: Fixed, dz: Fixed) -> (r: Point3)
        ensures
            r@ == grid_place(a as int, b as int, dx@, dz@),
    {
        let spread: Fixed = Fixed::from_raw(NINE_TENTHS_RAW);
        Point3::new(
            Fixed::from_int(a as i64) + spread * dx,
            Fixed::from_raw(FIFTH_RAW),
            Fixed::from_int(b as i64) + spread * dz,
        )
    }

    /// Whether `center` is farther than `0.9` from the place where each of
    /// the three large spheres stands.
    pub fn is_clear(center: &Point3) -> (r: bool)
        ensures
            r == clear_of_features(center@),
    {
        is_clear_of(center, vector(0, FIFTH_RAW, 0)) && is_clear_of(
            center,
            vector(-4 * ONE_RAW, FIFTH_RAW, 0),
        ) && is_clear_of(center, vector(4 * ONE_RAW, FIFTH_RAW, 0))
    }

    /// The small sphere of the cell `(a, b)` for the given draw, or none
    /// where its place is not clear of the large spheres.
    pub fn cell_sphere(a: i32, b: i32, draw: &CellDraw) -> (r: Option<Sphere>)
        ensures
            sphere_view(r) == cell_sphere(a as int, b as int, draw@),
    {
        let center: Point3 = Self::grid_center(a, b, draw.dx, draw.dz);
        if Self::is_clear(&center) {
            Some(Sphere::new(center, Fixed::from_raw(FIFTH_RAW), draw.material()))
        } else {
            None
        }
    }

    /// The list of the ground alone.
    fn ground_alone() -> (world: Self)
        ensures
            world@ == seq![ground()],
    {
        let mut world: HittableList = Self::new();
        let grey: Fixed = Fixed::from_raw(HALF_RAW);
        let ground_material: Lambertian = Lambertian::new(Color3::new(grey, grey, grey));
        world.add(
            Sphere::new(
                vector(0, -GROUND_RADIUS_RAW, 0),
                Fixed::from_raw(GROUND_RADIUS_RAW),
                MaterialKind::Lambertian(ground_material),
            ),
        );
        assert(world@ =~= seq![ground()]);
        world
    }

    /// Appends the three large spheres.
    fn add_features(&mut self)
        ensures
            final(self)@ == old(self)@ + seq![glass_feature(), diffuse_feature(), metal_feature()],
    {
        let material1: Dielectric = Dielectric::new(Fixed::from_raw(GLASS_INDEX_RAW));
        let material2: Lambertian = Lambertian::new(
            vector(TWO_FIFTHS_RAW, FIFTH_RAW, TENTH_RAW),
        );
        let material3: Metal = Metal::new(
            vector(SEVEN_TENTHS_RAW, THREE_FIFTHS_RAW, HALF_RAW),
            Fixed::zero(),
        );
        self.add(
            Sphere::new(vector(0, ONE_RAW, 0), Fixed::one(), MaterialKind::Dielectric(material1)),
        );
        self.add(
            Sphere::new(
                vector(-4 * ONE_RAW, ONE_RAW, 0),
                Fixed::one(),
                MaterialKind::Lambertian(material2),
            ),
        );
        self.add(
            Sphere::new(
                vector(4 * ONE_RAW, ONE_RAW, 0),
                Fixed::one(),
                MaterialKind::Metal(material3),
            ),
        );
        assert(self@ =~= old(self)@ + seq![
            glass_feature(),
            diffuse_feature(),
            metal_feature(),
        ]);
    }

    /// Appends the small sphere of the cell of index `k`, if its place is
    /// clear.
    fn add_cell(&mut self, k: usize, draw: &CellDraw)
        requires
            k < GRID_CELLS,
        ensures
            final(self)@ == match cell_sphere(cell_row(k as int), cell_column(k as int), draw@) {
                Some(sphere) => old(self)@.push(sphere),
                None => old(self)@,
            },
    {
        let a: i32 = (k / GRID_SIDE) as i32 - GRID_HALF;
        let b: i32 = (k % GRID_SIDE) as i32 - GRID_HALF;
        if let Some(sphere) = Self::cell_sphere(a, b, draw) {
            self.add(sphere);
        }
    }

    /// The scene for the given draws: the ground, the small spheres of the
    /// cells of the grid, row by row, and the three large spheres. Draws
    /// beyond the number of cells are not used, and cells beyond the number
    /// of draws stay empty.
    pub fn random_scene_with(draws: &Vec<CellDraw>) -> (world: Self)
        ensures
            world@ == scene_of(cell_draws_view(draws@)),
    {
        let ghost all = cell_draws_view(draws@);
        let mut world: HittableList = Self::ground_alone();
        let count: usize = if draws.len() < GRID_CELLS {
            draws.len()
        } else {
            GRID_CELLS
        };
        let mut k: usize = 0;
        while k < count
            invariant
                0 <= k <= count <= GRID_CELLS,
                count <= draws.len(),
                all == cell_draws_view(draws@),
                world@ == seq![ground()] + small_spheres(all, k as int),
            decreases count - k,
        {
            let ghost before = small_spheres(all, k as int);
            world.add_cell(k, &draws[k]);
            proof {
                assert(all[k as int] == draws@[k as int]@);
                match cell_sphere(cell_row(k as int), cell_column(k as int), all[k as int]) {
                    Some(sphere) => {
                        assert((seq![ground()] + before).push(sphere) =~= seq![ground()]
                            + before.push(sphere));
                    },
                    None => {},
                }
            }
            k = k + 1;
        }
        world.add_features();
        world
    }

    /// A random scene: the ground, a grid of small spheres with random
    /// places and materials, and three large spheres of glass, of a diffuse
    /// material and of metal.
    pub fn random_scene() -> (world: Self)
        ensures
            is_random_scene(world@),
    {
        let ghost mut draws: Seq<CellDrawView> = Seq::empty();
        let mut world: HittableList = Self::ground_alone();
        let mut k: usize = 0;
        while k < GRID_CELLS
            invariant
                0 <= k <= GRID_CELLS,
                draws.len() == k,
                forall|i: int| 0 <= i < draws.len() ==> valid_cell_draw(#[trigger] draws[i]),
                world@ == seq![ground()] + small_spheres(draws, k as int),
            decreases GRID_CELLS - k,
        {
            let a: i32 = (k / GRID_SIDE) as i32 - GRID_HALF;
            let b: i32 = (k % GRID_SIDE) as i32 - GRID_HALF;
            let draw: CellDraw = CellDraw::random(a, b);
            let ghost before = small_spheres(draws, k as int);
            world.add_cell(k, &draw);
            proof {
                let longer = draws.push(draw@);
                lemma_small_spheres_of_prefix(draws, longer, k as int);
                match cell_sphere(cell_row(k as int), cell_column(k as int), draw@) {
                    Some(sphere) => {
                        assert((seq![ground()] + before).push(sphere) =~= seq![ground()]
                            + before.push(sphere));
                    },
                    None => {},
                }
                draws = longer;
            }
            k = k + 1;
        }
        world.add_features();
        assert(world@ == scene_of(draws));
        world
    }
}

} // verus!

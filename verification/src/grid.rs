//! The grid planner: where on a page the watermark is drawn. Anchors stand on
//! a lattice that is turned by the tilt of the watermark plus the rotation of
//! the page, and only those near the page are kept.

use vstd::prelude::*;
use crate::angle::{Direction, add_rotation, direction, direction_of, effective_angle};
use crate::instruction::{
    Op,
    at_rest,
    draws,
    lemma_counts_concat,
    lemma_counts_empty,
    lemma_counts_push,
    lemma_run_push,
    lemma_sound_concat,
    sound,
};
use crate::units::{
    EXTENT_LIMIT,
    SCALE,
    floor_div,
    isqrt,
    is_sqrt,
    lemma_floor_div_bounds,
    lemma_sqrt_exists,
    scaled,
    sqrt_floor,
    steps_to_cover,
    within_limit,
};

verus! {

/// The width of the page that is taken where a document does not say: 595
/// units.
pub const STANDARD_WIDTH: i64 = 595_000_000;

/// The height of the page that is taken where a document does not say: 842
/// units.
pub const STANDARD_HEIGHT: i64 = 842_000_000;

/// The settings of one run. Lengths and factors are in millionths; the angle
/// is in whole degrees.
#[derive(Clone, Copy, Debug, PartialEq, Eq, Structural)]
pub struct Config {
    /// The size at which the text is set.
    pub point_size: i64,
    /// The tilt of the watermark against the upright page.
    pub angle_degrees: i64,
    /// The free space between two instances in a row.
    pub horizontal_gap: i64,
    /// The distance between two rows, as a multiple of the point size.
    pub vertical_multiplier: i64,
    /// How far the lattice reaches, as a multiple of the page diagonal.
    pub coverage_multiplier: i64,
    /// How far outside the page an anchor may lie and still be drawn.
    pub visibility_margin: i64,
    /// How far below the covered radius the first row starts.
    pub row_lead: i64,
    /// The shift of the lattice centre to the right of the page centre.
    pub center_x_offset: i64,
    /// The shift of the lattice centre below the page centre.
    pub center_y_offset: i64,
    /// The step that both lattice steps must exceed.
    pub min_step: i64,
    /// The most instances that a page may be estimated to need.
    pub max_instances: u32,
}

/// The visible area of a page and the rotation at which it is shown.
#[derive(Clone, Copy, Debug, PartialEq, Eq, Structural)]
pub struct PageGeometry {
    pub width: i64,
    pub height: i64,
    /// In whole degrees.
    pub rotation: i64,
}

/// Why a page cannot be planned.
#[derive(Clone, Copy, Debug, PartialEq, Eq, Structural)]
pub enum PlanError {
    /// A lattice step is not positive or does not exceed the minimum step.
    Sizing,
    /// The page would be estimated to need more instances than allowed.
    Density,
}

/// The lattice of one page, worked out from the settings: its direction, its
/// centre, where rows and columns start, how far apart they are, the index of
/// the last row and of the last column, and the window that an anchor must
/// fall into.
pub struct Lattice {
    pub direction: Direction,
    pub center_x: int,
    pub center_y: int,
    pub row_start: int,
    pub column_start: int,
    pub row_step: int,
    pub column_step: int,
    pub rows: int,
    pub columns: int,
    pub left: int,
    pub right: int,
    pub bottom: int,
    pub top: int,
}

impl Config {
    /// No length or factor is beyond the extent limit.
    pub open spec fn wf(self) -> bool {
        &&& within_limit(self.point_size as int)
        &&& within_limit(self.horizontal_gap as int)
        &&& within_limit(self.vertical_multiplier as int)
        &&& within_limit(self.coverage_multiplier as int)
        &&& within_limit(self.visibility_margin as int)
        &&& within_limit(self.row_lead as int)
        &&& within_limit(self.center_x_offset as int)
        &&& within_limit(self.center_y_offset as int)
        &&& within_limit(self.min_step as int)
    }

    /// The standard settings: 26 point text tilted by 60 degrees, 30 units
    /// between instances, rows six point sizes apart, one and a half page
    /// diagonals covered, a margin of 50 units, and at most a million
    /// instances on a page.
    pub fn standard() -> (c: Config)
        ensures
            c.wf(),
            c == (Config {
                point_size: 26_000_000,
                angle_degrees: 60,
                horizontal_gap: 30_000_000,
                vertical_multiplier: 6_000_000,
                coverage_multiplier: 1_500_000,
                visibility_margin: 50_000_000,
                row_lead: 200_000_000,
                center_x_offset: 0,
                center_y_offset: 0,
                min_step: 100_000,
                max_instances: 1_000_000,
            }),
    {
        Config {
            point_size: 26_000_000,
            angle_degrees: 60,
            horizontal_gap: 30_000_000,
            vertical_multiplier: 6_000_000,
            coverage_multiplier: 1_500_000,
            visibility_margin: 50_000_000,
            row_lead: 200_000_000,
            center_x_offset: 0,
            center_y_offset: 0,
            min_step: 100_000,
            max_instances: 1_000_000,
        }
    }

    /// Whether the settings are well formed.
    pub fn is_valid(&self) -> (b: bool)
        ensures
            b == self.wf(),
    {
        fits(self.point_size) && fits(self.horizontal_gap) && fits(self.vertical_multiplier)
            && fits(self.coverage_multiplier) && fits(self.visibility_margin) && fits(self.row_lead)
            && fits(self.center_x_offset) && fits(self.center_y_offset) && fits(self.min_step)
    }
}

impl PageGeometry {
    /// Neither extent is beyond the extent limit.
    pub open spec fn wf(self) -> bool {
        within_limit(self.width as int) && within_limit(self.height as int)
    }

    /// The page that is taken where a document does not say: the standard
    /// size, upright.
    pub fn standard() -> (p: PageGeometry)
        ensures
            p.wf(),
            p == (PageGeometry { width: STANDARD_WIDTH, height: STANDARD_HEIGHT, rotation: 0 }),
    {
        PageGeometry { width: STANDARD_WIDTH, height: STANDARD_HEIGHT, rotation: 0 }
    }

    /// A page of the given extents and rotation, or `None` where an extent is
    /// beyond the extent limit.
    pub fn new(width: i64, height: i64, rotation: i64) -> (r: Option<PageGeometry>)
        ensures
            r is Some <==> within_limit(width as int) && within_limit(height as int),
            r is Some ==> r.unwrap() == (PageGeometry { width, height, rotation }),
    {
        if fits(width) && fits(height) {
            Some(PageGeometry { width, height, rotation })
        } else {
            None
        }
    }
}

/// Whether a value is within the extent limit.
pub fn fits(m: i64) -> (b: bool)
    ensures
        b == within_limit(m as int),
{
    -EXTENT_LIMIT <= m && m <= EXTENT_LIMIT
}

/// The distance between two instances in a row: the width of the text and the
/// gap.
pub open spec fn inner_step(c: Config, text_width: int) -> int {
    text_width + c.horizontal_gap
}

/// The distance between two rows: the point size times the vertical
/// multiplier.
pub open spec fn outer_step(c: Config) -> int {
    scaled(c.point_size as int, c.vertical_multiplier as int, SCALE as int)
}

/// Whether both steps are positive and exceed the minimum step.
pub open spec fn steps_valid(c: Config, text_width: int) -> bool {
    &&& inner_step(c, text_width) > 0
    &&& outer_step(c) > 0
    &&& inner_step(c, text_width) > c.min_step
    &&& outer_step(c) > c.min_step
}

/// The radius that the lattice covers: the page diagonal times the coverage
/// multiplier.
pub open spec fn coverage_radius(c: Config, page: PageGeometry) -> int {
    scaled(
        sqrt_floor((page.width * page.width + page.height * page.height) as nat) as int,
        c.coverage_multiplier as int,
        SCALE as int,
    )
}

/// The lattice of a page.
pub open spec fn lattice(c: Config, page: PageGeometry, text_width: int) -> Lattice {
    let radius = coverage_radius(c, page);
    Lattice {
        direction: direction_of(effective_angle(c.angle_degrees as int, page.rotation as int)),
        center_x: page.width / 2 + c.center_x_offset,
        center_y: page.height / 2 - c.center_y_offset,
        row_start: -radius - c.row_lead,
        column_start: -radius,
        row_step: outer_step(c),
        column_step: inner_step(c, text_width),
        rows: steps_to_cover(2 * radius + c.row_lead, outer_step(c)),
        columns: steps_to_cover(2 * radius, inner_step(c, text_width)),
        left: -(c.visibility_margin as int),
        right: page.width + c.visibility_margin,
        bottom: -(c.visibility_margin as int),
        top: page.height + c.visibility_margin,
    }
}

/// The number of lattice points, which bounds the number of instances.
pub open spec fn estimated_instances(l: Lattice) -> int {
    (l.rows + 1) * (l.columns + 1)
}

/// A lattice offset turned into page space: `center + u * fu + v * fv`, where
/// the factors `fu` and `fv` are given in millionths.
pub open spec fn turned(center: int, u: int, v: int, fu: int, fv: int) -> int {
    center + (u * fu + v * fv) / (SCALE as int)
}

/// The horizontal page coordinate of the lattice point in row `row` and column
/// `column`: `cx + u * cos - v * sin`.
pub open spec fn anchor_x(l: Lattice, row: int, column: int) -> int {
    turned(
        l.center_x,
        l.column_start + column * l.column_step,
        l.row_start + row * l.row_step,
        l.direction.cos as int,
        -(l.direction.sin as int),
    )
}

/// The vertical page coordinate of the lattice point in row `row` and column
/// `column`: `cy + u * sin + v * cos`.
pub open spec fn anchor_y(l: Lattice, row: int, column: int) -> int {
    turned(
        l.center_y,
        l.column_start + column * l.column_step,
        l.row_start + row * l.row_step,
        l.direction.sin as int,
        l.direction.cos as int,
    )
}

/// Whether a point falls strictly inside the window of the lattice.
pub open spec fn visible(l: Lattice, x: int, y: int) -> bool {
    l.left < x < l.right && l.bottom < y < l.top
}

/// The four operations of one instance: save, place, draw, restore.
pub open spec fn instance_ops(d: Direction, resource: u32, x: int, y: int) -> Seq<Op> {
    seq![
        Op::SaveState,
        Op::SetTransform {
            a: d.cos,
            b: d.sin,
            c: (-d.sin) as i64,
            d: d.cos,
            e: x as i64,
            f: y as i64,
        },
        Op::DrawResource(resource),
        Op::RestoreState,
    ]
}

/// The operations of one lattice point: an instance where the anchor is
/// visible, nothing where it is not.
pub open spec fn cell_ops(l: Lattice, resource: u32, row: int, column: int) -> Seq<Op> {
    if visible(l, anchor_x(l, row, column), anchor_y(l, row, column)) {
        instance_ops(l.direction, resource, anchor_x(l, row, column), anchor_y(l, row, column))
    } else {
        Seq::empty()
    }
}

/// The operations of the first `n` lattice points of a row.
pub open spec fn row_ops(l: Lattice, resource: u32, row: int, n: nat) -> Seq<Op>
    decreases n,
{
    if n == 0 {
        Seq::empty()
    } else {
        row_ops(l, resource, row, (n - 1) as nat) + cell_ops(l, resource, row, n - 1)
    }
}

/// The operations of the first `n` rows.
pub open spec fn grid_ops(l: Lattice, resource: u32, n: nat) -> Seq<Op>
    decreases n,
{
    if n == 0 {
        Seq::empty()
    } else {
        grid_ops(l, resource, (n - 1) as nat) + row_ops(
            l,
            resource,
            n - 1,
            (l.columns + 1) as nat,
        )
    }
}

/// The instances of a whole lattice, row by row.
pub open spec fn lattice_ops(l: Lattice, resource: u32) -> Seq<Op> {
    grid_ops(l, resource, (l.rows + 1) as nat)
}

/// Why a page cannot be planned, if it cannot: a sizing error where a step
/// is not positive or does not exceed the minimum step, a density error where
/// the lattice has more points than instances are allowed.
pub open spec fn plan_error(c: Config, page: PageGeometry, text_width: int) -> Option<PlanError> {
    if !steps_valid(c, text_width) {
        Some(PlanError::Sizing)
    } else if estimated_instances(lattice(c, page, text_width)) > c.max_instances {
        Some(PlanError::Density)
    } else {
        None
    }
}

/// What planning a page comes to: the error where the page cannot be
/// planned, and otherwise the instances of all visible anchors, row by row.
pub open spec fn planned(c: Config, resource: u32, page: PageGeometry, text_width: int) -> Result<
    Seq<Op>,
    PlanError,
> {
    match plan_error(c, page, text_width) {
        Some(e) => Err(e),
        None => Ok(lattice_ops(lattice(c, page, text_width), resource)),
    }
}

/// Whether every placement in a sequence puts its instance strictly inside
/// the window of the lattice.
pub open spec fn placed_within(ops: Seq<Op>, l: Lattice) -> bool {
    forall|i: int|
        0 <= i < ops.len() ==> match #[trigger] ops[i] {
            Op::SetTransform { e, f, .. } => l.left < e < l.right && l.bottom < f < l.top,
            _ => true,
        }
}

/// Whether the window of a lattice can be held in the coordinates of an
/// operation.
pub open spec fn window_fits(l: Lattice) -> bool {
    i64::MIN <= l.left && l.right <= i64::MAX && i64::MIN <= l.bottom && l.top <= i64::MAX
}

/// A bound that every lattice offset stays within.
pub open spec fn offset_bound() -> int {
    10_000_000_000_000_000_000_000_000_000_000
}

/// The product of two bounded numbers is bounded by the product of the bounds.
proof fn lemma_product_bound(a: int, b: int, m: int, n: int)
    requires
        -m <= a <= m,
        -n <= b <= n,
    ensures
        -(m * n) <= a * b <= m * n,
{
    assert(-(m * n) <= a * b <= m * n) by (nonlinear_arith)
        requires
            -m <= a <= m,
            -n <= b <= n,
    ;
}

/// The count of steps needed to cover a span.
fn cover_steps(span: i128, step: i128) -> (n: i128)
    requires
        0 < step <= offset_bound(),
        -offset_bound() <= span <= offset_bound(),
    ensures
        n as int == steps_to_cover(span as int, step as int),
        0 <= n,
        n * step <= (if span > 0 { span as int } else { 0 }) + step - 1,
{
    if span <= 0 {
        0
    } else {
        let n = floor_div(span + step - 1, step);
        proof {
            let x = span as int + step as int - 1;
            lemma_floor_div_bounds(x, step as int);
            vstd::arithmetic::div_mod::lemma_fundamental_div_mod(x, step as int);
            vstd::arithmetic::div_mod::lemma_mod_bound(x, step as int);
            assert((n as int) * (step as int) == (step as int) * (n as int)) by (nonlinear_arith);
        }
        n
    }
}

/// Turns a lattice offset into page space.
fn turn_into_page(center: i128, u: i128, v: i128, fu: i64, fv: i64) -> (r: i128)
    requires
        -offset_bound() <= u <= offset_bound(),
        -offset_bound() <= v <= offset_bound(),
        -offset_bound() <= center <= offset_bound(),
        -SCALE <= fu <= SCALE,
        -SCALE <= fv <= SCALE,
    ensures
        r as int == turned(center as int, u as int, v as int, fu as int, fv as int),
{
    proof {
        lemma_product_bound(u as int, fu as int, offset_bound(), SCALE as int);
        lemma_product_bound(v as int, fv as int, offset_bound(), SCALE as int);
    }
    let sum: i128 = u * (fu as i128) + v * (fv as i128);
    let moved: i128 = floor_div(sum, SCALE as i128);
    proof {
        lemma_floor_div_bounds(sum as int, SCALE as int);
    }
    center + moved
}

/// The integer square root of a sum of two squares of extents stays below
/// twice the extent limit.
proof fn lemma_diagonal_bound(w: int, h: int)
    requires
        within_limit(w),
        within_limit(h),
    ensures
        0 <= w * w + h * h <= 2 * EXTENT_LIMIT * EXTENT_LIMIT,
        sqrt_floor((w * w + h * h) as nat) <= 2 * EXTENT_LIMIT,
{
    let limit = EXTENT_LIMIT as int;
    assert(0 <= w * w <= limit * limit) by (nonlinear_arith)
        requires
            -limit <= w <= limit,
    ;
    assert(0 <= h * h <= limit * limit) by (nonlinear_arith)
        requires
            -limit <= h <= limit,
    ;
    let n = (w * w + h * h) as nat;
    lemma_sqrt_exists(n);
    let r = sqrt_floor(n);
    if r > 2 * limit {
        assert(r * r > 2 * limit * limit) by (nonlinear_arith)
            requires
                r > 2 * limit,
                limit > 0,
        ;
    }
}

/// A lattice that has been measured and found fit for planning, in machine
/// integers.
#[derive(Clone, Copy, Debug, PartialEq, Eq)]
pub struct Mesh {
    direction: Direction,
    center_x: i128,
    center_y: i128,
    row_start: i128,
    column_start: i128,
    row_step: i128,
    column_step: i128,
    rows: i128,
    columns: i128,
    left: i128,
    right: i128,
    bottom: i128,
    top: i128,
}

impl View for Mesh {
    type V = Lattice;

    /// The lattice that the machine integers stand for.
    closed spec fn view(&self) -> Lattice {
        Lattice {
            direction: self.direction,
            center_x: self.center_x as int,
            center_y: self.center_y as int,
            row_start: self.row_start as int,
            column_start: self.column_start as int,
            row_step: self.row_step as int,
            column_step: self.column_step as int,
            rows: self.rows as int,
            columns: self.columns as int,
            left: self.left as int,
            right: self.right as int,
            bottom: self.bottom as int,
            top: self.top as int,
        }
    }
}

/// Whether a lattice is small enough for its anchors to be worked out in
/// machine integers: it has fewer rows and columns than would overflow any
/// cap, positive steps, no offset beyond the offset bound, and a window that
/// the coordinates of an operation can hold.
pub open spec fn workable(l: Lattice) -> bool {
    &&& 0 <= l.rows < 0x1_0000_0000
    &&& 0 <= l.columns < 0x1_0000_0000
    &&& 0 < l.row_step
    &&& 0 < l.column_step
    &&& -offset_bound() <= l.row_start
    &&& l.row_start + l.rows * l.row_step <= offset_bound()
    &&& -offset_bound() <= l.column_start
    &&& l.column_start + l.columns * l.column_step <= offset_bound()
    &&& -offset_bound() <= l.center_x <= offset_bound()
    &&& -offset_bound() <= l.center_y <= offset_bound()
    &&& -(SCALE as int) <= l.direction.cos <= SCALE
    &&& -(SCALE as int) <= l.direction.sin <= SCALE
    &&& window_fits(l)
}

/// Measures the lattice of a page and tells whether the page can be planned:
/// both lattice steps must be positive and exceed the minimum step, and the
/// lattice must not have more points than instances are allowed.
pub fn measure_lattice(config: &Config, page: &PageGeometry, text_width: i64) -> (r: Result<Mesh, PlanError>)
    requires
        config.wf(),
        page.wf(),
    ensures
        match plan_error(*config, *page, text_width as int) {
            Some(e) => r == Err::<Mesh, PlanError>(e),
            None => r matches Ok(m) && m@ == lattice(*config, *page, text_width as int)
                && workable(m@),
        },
{
    let inner: i128 = text_width as i128 + config.horizontal_gap as i128;
    proof {
        lemma_product_bound(
            config.point_size as int,
            config.vertical_multiplier as int,
            EXTENT_LIMIT as int,
            EXTENT_LIMIT as int,
        );
    }
    let outer: i128 = floor_div(
        (config.point_size as i128) * (config.vertical_multiplier as i128),
        SCALE as i128,
    );
    proof {
        lemma_floor_div_bounds(
            (config.point_size as int) * (config.vertical_multiplier as int),
            SCALE as int,
        );
    }
    let least: i128 = config.min_step as i128;
    if !(inner > 0 && outer > 0 && inner > least && outer > least) {
        return Err(PlanError::Sizing);
    }
    let d: Direction = direction(add_rotation(config.angle_degrees, page.rotation));
    proof {
        lemma_diagonal_bound(page.width as int, page.height as int);
    }
    let w: i128 = page.width as i128;
    let h: i128 = page.height as i128;
    proof {
        lemma_product_bound(w as int, w as int, EXTENT_LIMIT as int, EXTENT_LIMIT as int);
        lemma_product_bound(h as int, h as int, EXTENT_LIMIT as int, EXTENT_LIMIT as int);
    }
    let squares: u128 = (w * w + h * h) as u128;
    let root: i128 = isqrt(squares) as i128;
    proof {
        lemma_product_bound(
            root as int,
            config.coverage_multiplier as int,
            2 * EXTENT_LIMIT as int,
            EXTENT_LIMIT as int,
        );
    }
    let radius: i128 = floor_div(root * (config.coverage_multiplier as i128), SCALE as i128);
    proof {
        lemma_floor_div_bounds(
            (root as int) * (config.coverage_multiplier as int),
            SCALE as int,
        );
    }
    let rows: i128 = cover_steps(2 * radius + config.row_lead as i128, outer);
    let columns: i128 = cover_steps(2 * radius, inner);
    let most: i128 = config.max_instances as i128;
    if rows >= most || columns >= most {
        proof {
            assert((rows + 1) * (columns + 1) > most as int) by (nonlinear_arith)
                requires
                    rows >= 0,
                    columns >= 0,
                    rows >= most || columns >= most,
            ;
        }
        return Err(PlanError::Density);
    }
    proof {
        lemma_product_bound(rows + 1, columns + 1, 0x1_0000_0000, 0x1_0000_0000);
    }
    if (rows + 1) * (columns + 1) > most {
        return Err(PlanError::Density);
    }
    proof {
        lemma_floor_div_bounds(w as int, 2);
        lemma_floor_div_bounds(h as int, 2);
    }
    Ok(
        Mesh {
            direction: d,
            center_x: floor_div(w, 2) + config.center_x_offset as i128,
            center_y: floor_div(h, 2) - config.center_y_offset as i128,
            row_start: -radius - config.row_lead as i128,
            column_start: -radius,
            row_step: outer,
            column_step: inner,
            rows,
            columns,
            left: -(config.visibility_margin as i128),
            right: w + config.visibility_margin as i128,
            bottom: -(config.visibility_margin as i128),
            top: h + config.visibility_margin as i128,
        },
    )
}

impl Mesh {
    /// Every measured lattice is workable.
    #[verifier::type_invariant]
    spec fn well_measured(self) -> bool {
        workable(self@)
    }

    /// The instances of a measured lattice: every lattice point is turned into
    /// page space, row by row, and each anchor that falls strictly inside the
    /// window gets one instance: save, place, draw, restore.
    pub fn instances(&self, resource: u32) -> (ops: Vec<Op>)
        ensures
            workable(self@),
            ops@ == lattice_ops(self@, resource),
            placed_within(ops@, self@),
            ops@.len() == 4 * draws(ops@),
            draws(ops@) <= estimated_instances(self@),
            sound(ops@),
    {
        let ghost l = self@;
        proof {
            use_type_invariant(self);
        }
        let mut ops: Vec<Op> = Vec::new();
        let mut row: i128 = 0;
        while row <= self.rows
            invariant
                0 <= row <= self.rows + 1,
                l == self@,
                workable(l),
                ops@ == grid_ops(l, resource, row as nat),
            decreases self.rows + 1 - row,
        {
            proof {
                lemma_offset_in_reach(l.row_start, l.row_step, row as int, l.rows);
            }
            let v: i128 = self.row_start + row * self.row_step;
            let ghost before_row = ops@;
            let mut column: i128 = 0;
            while column <= self.columns
                invariant
                    0 <= column <= self.columns + 1,
                    0 <= row <= self.rows,
                    l == self@,
                    workable(l),
                    v == l.row_start + row * l.row_step,
                    -offset_bound() <= v <= offset_bound(),
                    ops@ == before_row + row_ops(l, resource, row as int, column as nat),
                decreases self.columns + 1 - column,
            {
                proof {
                    lemma_offset_in_reach(
                        l.column_start,
                        l.column_step,
                        column as int,
                        l.columns,
                    );
                }
                let u: i128 = self.column_start + column * self.column_step;
                let x: i128 = turn_into_page(
                    self.center_x,
                    u,
                    v,
                    self.direction.cos,
                    -self.direction.sin,
                );
                let y: i128 = turn_into_page(
                    self.center_y,
                    u,
                    v,
                    self.direction.sin,
                    self.direction.cos,
                );
                if self.left < x && x < self.right && self.bottom < y && y < self.top {
                    ops.push(Op::SaveState);
                    ops.push(
                        Op::SetTransform {
                            a: self.direction.cos,
                            b: self.direction.sin,
                            c: -self.direction.sin,
                            d: self.direction.cos,
                            e: x as i64,
                            f: y as i64,
                        },
                    );
                    ops.push(Op::DrawResource(resource));
                    ops.push(Op::RestoreState);
                }
                proof {
                    assert(ops@ =~= before_row + row_ops(
                        l,
                        resource,
                        row as int,
                        (column + 1) as nat,
                    ));
                }
                column += 1;
            }
            row += 1;
        }
        proof {
            lemma_grid_shape(l, resource, (self.rows + 1) as nat);
        }
        ops
    }
}

/// Plans the instances of one page. Both lattice steps must be positive and
/// exceed the minimum step, and the lattice must not have more points than
/// instances are allowed; then every lattice point is turned into page space, row by row,
/// and each anchor that falls inside the page grown by the visibility margin
/// gets one instance: save, place, draw, restore.
pub fn plan_grid(config: &Config, resource: u32, page: &PageGeometry, text_width: i64) -> (r: Result<
    Vec<Op>,
    PlanError,
>)
    requires
        config.wf(),
        page.wf(),
    ensures
        r matches Ok(ops) ==> planned(*config, resource, *page, text_width as int) == Ok::<
            Seq<Op>,
            PlanError,
        >(ops@),
        r matches Err(e) ==> planned(*config, resource, *page, text_width as int) == Err::<
            Seq<Op>,
            PlanError,
        >(e),
        r matches Ok(ops) ==> placed_within(ops@, lattice(*config, *page, text_width as int))
            && ops@.len() == 4 * draws(ops@) && draws(ops@) <= config.max_instances && sound(ops@),
        r == Err::<Vec<Op>, PlanError>(PlanError::Sizing) <==> !steps_valid(
            *config,
            text_width as int,
        ),
        r == Err::<Vec<Op>, PlanError>(PlanError::Density) <==> steps_valid(
            *config,
            text_width as int,
        ) && estimated_instances(lattice(*config, *page, text_width as int))
            > config.max_instances,
{
    match measure_lattice(config, page, text_width) {
        Ok(m) => Ok(m.instances(resource)),
        Err(e) => Err(e),
    }
}

/// A lattice offset lies between the start and the last offset of its axis.
proof fn lemma_offset_in_reach(start: int, step: int, index: int, last: int)
    requires
        0 <= index <= last,
        step > 0,
        -offset_bound() <= start,
        start + last * step <= offset_bound(),
    ensures
        -offset_bound() <= start + index * step <= offset_bound(),
        0 <= index * step <= last * step,
{
    assert(0 <= index * step <= last * step) by (nonlinear_arith)
        requires
            0 <= index <= last,
            step > 0,
    ;
}

/// The operations of one lattice point are one whole instance or none, an
/// instance is placed inside the window, and it is a sound program.
proof fn lemma_cell_shape(l: Lattice, resource: u32, row: int, column: int)
    requires
        window_fits(l),
    ensures
        placed_within(cell_ops(l, resource, row, column), l),
        cell_ops(l, resource, row, column).len() == 4 * draws(cell_ops(l, resource, row, column)),
        draws(cell_ops(l, resource, row, column)) <= 1,
        sound(cell_ops(l, resource, row, column)),
{
    lemma_counts_empty();
    let x = anchor_x(l, row, column);
    let y = anchor_y(l, row, column);
    if visible(l, x, y) {
        let e = Seq::<Op>::empty();
        let place = Op::SetTransform {
            a: l.direction.cos,
            b: l.direction.sin,
            c: (-l.direction.sin) as i64,
            d: l.direction.cos,
            e: x as i64,
            f: y as i64,
        };
        let s1 = e.push(Op::SaveState);
        let s2 = s1.push(place);
        let s3 = s2.push(Op::DrawResource(resource));
        lemma_counts_push(e, Op::SaveState);
        lemma_counts_push(s1, place);
        lemma_counts_push(s2, Op::DrawResource(resource));
        lemma_counts_push(s3, Op::RestoreState);
        lemma_run_push(Some(at_rest()), e, Op::SaveState);
        lemma_run_push(Some(at_rest()), s1, place);
        lemma_run_push(Some(at_rest()), s2, Op::DrawResource(resource));
        lemma_run_push(Some(at_rest()), s3, Op::RestoreState);
        assert(cell_ops(l, resource, row, column) =~= s3.push(Op::RestoreState));
    }
}

/// Joining two sequences keeps every placement inside the window.
proof fn lemma_placed_within_concat(a: Seq<Op>, b: Seq<Op>, l: Lattice)
    requires
        placed_within(a, l),
        placed_within(b, l),
    ensures
        placed_within(a + b, l),
{
}

/// The first `n` lattice points of a row give whole instances, at most `n` of
/// them, each inside the window, and together a sound program.
proof fn lemma_row_shape(l: Lattice, resource: u32, row: int, n: nat)
    requires
        window_fits(l),
    ensures
        placed_within(row_ops(l, resource, row, n), l),
        row_ops(l, resource, row, n).len() == 4 * draws(row_ops(l, resource, row, n)),
        draws(row_ops(l, resource, row, n)) <= n,
        sound(row_ops(l, resource, row, n)),
    decreases n,
{
    lemma_counts_empty();
    if n > 0 {
        lemma_row_shape(l, resource, row, (n - 1) as nat);
        lemma_cell_shape(l, resource, row, n - 1);
        lemma_sound_concat(
            row_ops(l, resource, row, (n - 1) as nat),
            cell_ops(l, resource, row, n - 1),
        );
        lemma_counts_concat(
            row_ops(l, resource, row, (n - 1) as nat),
            cell_ops(l, resource, row, n - 1),
        );
        lemma_placed_within_concat(
            row_ops(l, resource, row, (n - 1) as nat),
            cell_ops(l, resource, row, n - 1),
            l,
        );
    }
}

/// The first `n` rows of a lattice give whole instances, no more than the
/// lattice has points in those rows, each inside the window: every anchor
/// that is drawn lies within the page grown by the visibility margin. Together
/// they are a sound program.
pub proof fn lemma_grid_shape(l: Lattice, resource: u32, n: nat)
    requires
        window_fits(l),
        l.columns >= 0,
    ensures
        placed_within(grid_ops(l, resource, n), l),
        grid_ops(l, resource, n).len() == 4 * draws(grid_ops(l, resource, n)),
        draws(grid_ops(l, resource, n)) <= n * (l.columns + 1),
        sound(grid_ops(l, resource, n)),
    decreases n,
{
    lemma_counts_empty();
    if n > 0 {
        let width = (l.columns + 1) as nat;
        lemma_grid_shape(l, resource, (n - 1) as nat);
        lemma_row_shape(l, resource, n - 1, width);
        lemma_sound_concat(
            grid_ops(l, resource, (n - 1) as nat),
            row_ops(l, resource, n - 1, width),
        );
        lemma_counts_concat(
            grid_ops(l, resource, (n - 1) as nat),
            row_ops(l, resource, n - 1, width),
        );
        lemma_placed_within_concat(
            grid_ops(l, resource, (n - 1) as nat),
            row_ops(l, resource, n - 1, width),
            l,
        );
        assert(n * (l.columns + 1) == (n - 1) * (l.columns + 1) + (l.columns + 1))
            by (nonlinear_arith);
    }
}

/// A step that is zero or negative is rejected: where the width of the text
/// and the gap together, or the point size times the vertical multiplier, do
/// not come to more than nothing, planning ends in a sizing error.
pub proof fn lemma_degenerate_step_rejected(c: Config, resource: u32, page: PageGeometry, text_width: int)
    requires
        text_width + c.horizontal_gap <= 0 || c.point_size * c.vertical_multiplier <= 0,
    ensures
        planned(c, resource, page, text_width) == Err::<Seq<Op>, PlanError>(PlanError::Sizing),
{
    lemma_floor_div_bounds(c.point_size * c.vertical_multiplier, SCALE as int);
}

/// A lattice with more points than instances are allowed is rejected: where
/// the steps are so small that the estimate exceeds the cap, planning ends in
/// a density error.
pub proof fn lemma_dense_lattice_rejected(c: Config, resource: u32, page: PageGeometry, text_width: int)
    requires
        steps_valid(c, text_width),
        estimated_instances(lattice(c, page, text_width)) > c.max_instances,
    ensures
        planned(c, resource, page, text_width) == Err::<Seq<Op>, PlanError>(PlanError::Density),
{
}

/// A plan never holds more instances than the cap allows, every instance it
/// holds is placed within the page grown by the visibility margin, and the
/// plan is a sound program: it restores every state that it saves.
pub proof fn lemma_plan_bounded(c: Config, resource: u32, page: PageGeometry, text_width: int)
    requires
        c.wf(),
        page.wf(),
        planned(c, resource, page, text_width) is Ok,
    ensures
        draws(planned(c, resource, page, text_width).unwrap()) <= c.max_instances,
        placed_within(
            planned(c, resource, page, text_width).unwrap(),
            lattice(c, page, text_width),
        ),
        sound(planned(c, resource, page, text_width).unwrap()),
{
    let l = lattice(c, page, text_width);
    lemma_lattice_counts_nonnegative(c, page, text_width);
    lemma_grid_shape(l, resource, (l.rows + 1) as nat);
}

/// Neither count of a lattice is negative where its steps are valid.
proof fn lemma_lattice_counts_nonnegative(c: Config, page: PageGeometry, text_width: int)
    requires
        c.wf(),
        steps_valid(c, text_width),
    ensures
        lattice(c, page, text_width).rows >= 0,
        lattice(c, page, text_width).columns >= 0,
{
    let radius = coverage_radius(c, page);
    if 2 * radius + c.row_lead > 0 {
        lemma_floor_div_bounds(2 * radius + c.row_lead + outer_step(c) - 1, outer_step(c));
    }
    if 2 * radius > 0 {
        lemma_floor_div_bounds(
            2 * radius + inner_step(c, text_width) - 1,
            inner_step(c, text_width),
        );
    }
}

} // verus!

//! The torus: its parameters, their validation, and the rasterizer that
//! turns projected surface samples into a brightness field.

use vstd::prelude::*;
use vstd::string::StringExecFns;
use crate::scalar::{Scalar, FULL_TURN_BITS, ONE_BITS, SIGN_BIT};
use crate::grid::{filled, grid, is_grid, set_cell, uniform, with_cell, lemma_with_cell_shape};

verus! {

/// Brightness is counted in tenths: 0 is dark, `FULL` is the ceiling.
pub const FULL: u8 = 10;

/// What one visible sample adds to the brightness of its cell.
pub const STEP: u8 = 3;

/// A rule that a configuration breaks, with the value that breaks it.
#[derive(Clone, Copy, Debug, PartialEq, Eq, Structural)]
pub enum ConfigError {
    /// The major radius is not greater than zero.
    MajorRadius(Scalar),
    /// The minor radius is not greater than zero.
    MinorRadius(Scalar),
    /// The zoom is not greater than zero.
    Zoom(Scalar),
    /// The granularity is not greater than zero.
    Granularity(i64),
    /// The screen has no rows or no columns.
    ScreenSize(i64, i64),
    /// A rotation speed, given with its axis, is not between 0 and 1.
    RotationSpeed(usize, Scalar),
    /// A rotation angle, given with its axis, is not between minus one and
    /// plus one full turn.
    RotationAngle(usize, Scalar),
    /// The glyph ramp is empty.
    GlyphRamp,
    /// The frame rate is zero.
    FrameRate,
}

impl ConfigError {
    /// The sentence that names the rule.
    pub open spec fn text(self) -> Seq<char> {
        match self {
            ConfigError::MajorRadius(_) => "Major radius must be greater than 0"@,
            ConfigError::MinorRadius(_) => "Minor radius must be greater than 0"@,
            ConfigError::Zoom(_) => "Zoom must be greater than 0"@,
            ConfigError::Granularity(_) => "Granularity must be greater than 0"@,
            ConfigError::ScreenSize(_, _) => "Screen size must be greater than 0"@,
            ConfigError::RotationSpeed(_, _) => "Rotation speed must be between 0.0 and 1.0"@,
            ConfigError::RotationAngle(_, _) => "Rotation angle must be between -2 * PI and 2 * PI"@,
            ConfigError::GlyphRamp => "Glyph ramp must not be empty"@,
            ConfigError::FrameRate => "Frame rate must be greater than 0"@,
        }
    }

    /// The sentence that names the rule, for a message to the user.
    pub fn message(&self) -> (s: String)
        ensures
            s@ == self.text(),
    {
        match self {
            ConfigError::MajorRadius(_) => String::from_str("Major radius must be greater than 0"),
            ConfigError::MinorRadius(_) => String::from_str("Minor radius must be greater than 0"),
            ConfigError::Zoom(_) => String::from_str("Zoom must be greater than 0"),
            ConfigError::Granularity(_) => String::from_str("Granularity must be greater than 0"),
            ConfigError::ScreenSize(_, _) => String::from_str("Screen size must be greater than 0"),
            ConfigError::RotationSpeed(_, _) => String::from_str(
                "Rotation speed must be between 0.0 and 1.0",
            ),
            ConfigError::RotationAngle(_, _) => String::from_str(
                "Rotation angle must be between -2 * PI and 2 * PI",
            ),
            ConfigError::GlyphRamp => String::from_str("Glyph ramp must not be empty"),
            ConfigError::FrameRate => String::from_str("Frame rate must be greater than 0"),
        }
    }
}

/// `0 < x`.
pub open spec fn positive(x: Scalar) -> bool {
    (Scalar { bits: 0 }).less(x)
}

/// `0 <= s <= 1`.
pub open spec fn speed_ok(s: Scalar) -> bool {
    (Scalar { bits: 0 }).less_eq(s) && s.less_eq(Scalar { bits: ONE_BITS })
}

/// The angle lies between one full turn backwards and one forwards.
pub open spec fn angle_ok(a: Scalar) -> bool {
    (Scalar { bits: (SIGN_BIT + FULL_TURN_BITS) as u64 }).less_eq(a) && a.less_eq(
        Scalar { bits: FULL_TURN_BITS },
    )
}

/// Whether a rotation speed lies between 0 and 1.
pub fn speed_in_range(s: Scalar) -> (r: bool)
    ensures
        r == speed_ok(s),
{
    Scalar::zero().le(s) && s.le(Scalar::one())
}

/// Whether an angle lies within one full turn of zero.
pub fn angle_in_range(a: Scalar) -> (r: bool)
    ensures
        r == angle_ok(a),
{
    Scalar::full_turn_back().le(a) && a.le(Scalar::full_turn())
}

/// Everything that describes the torus and its motion.
#[derive(Clone, Copy, Debug)]
pub struct TorusParameters {
    /// Distance from the centre of the torus to the centre of the tube.
    pub major_radius: Scalar,
    /// Radius of the tube.
    pub minor_radius: Scalar,
    /// Distance of the viewer from the projection plane.
    pub zoom: Scalar,
    /// Fraction of a full turn that each axis advances per frame.
    pub rotation_speed: [Scalar; 3],
    /// The current angle about each axis, in radians.
    pub rotation_angle: [Scalar; 3],
    /// Number of samples along each of the two surface angles.
    pub granularity: i64,
    /// Rows and columns of the screen.
    pub screen_size: [i64; 2],
    /// The direction of the light, where one is given. Shading does not
    /// depend on it.
    pub light_vector: Option<[Scalar; 3]>,
}

impl TorusParameters {
    /// The first rule that the parameters break, in the order in which the
    /// rules are checked; none when they break no rule.
    pub open spec fn violation(self) -> Option<ConfigError> {
        if !positive(self.major_radius) {
            Some(ConfigError::MajorRadius(self.major_radius))
        } else if !positive(self.minor_radius) {
            Some(ConfigError::MinorRadius(self.minor_radius))
        } else if !positive(self.zoom) {
            Some(ConfigError::Zoom(self.zoom))
        } else if self.granularity <= 0 {
            Some(ConfigError::Granularity(self.granularity))
        } else if self.screen_size[0] <= 0 || self.screen_size[1] <= 0 {
            Some(ConfigError::ScreenSize(self.screen_size[0], self.screen_size[1]))
        } else if !speed_ok(self.rotation_speed[0]) {
            Some(ConfigError::RotationSpeed(0, self.rotation_speed[0]))
        } else if !speed_ok(self.rotation_speed[1]) {
            Some(ConfigError::RotationSpeed(1, self.rotation_speed[1]))
        } else if !speed_ok(self.rotation_speed[2]) {
            Some(ConfigError::RotationSpeed(2, self.rotation_speed[2]))
        } else if !angle_ok(self.rotation_angle[0]) {
            Some(ConfigError::RotationAngle(0, self.rotation_angle[0]))
        } else if !angle_ok(self.rotation_angle[1]) {
            Some(ConfigError::RotationAngle(1, self.rotation_angle[1]))
        } else if !angle_ok(self.rotation_angle[2]) {
            Some(ConfigError::RotationAngle(2, self.rotation_angle[2]))
        } else {
            None
        }
    }

    /// The parameters break no rule.
    pub open spec fn valid(self) -> bool {
        self.violation() is None
    }

    /// What holds of a torus for as long as it lives: every rule but the one
    /// on the angles, which grow as the torus turns.
    pub open spec fn sound(self) -> bool {
        &&& positive(self.major_radius)
        &&& positive(self.minor_radius)
        &&& positive(self.zoom)
        &&& self.granularity > 0
        &&& self.screen_size[0] > 0
        &&& self.screen_size[1] > 0
        &&& forall|k: int| 0 <= k < 3 ==> speed_ok(#[trigger] self.rotation_speed[k])
    }

    /// Finds the first rule that the parameters break.
    pub fn check(&self) -> (r: Option<ConfigError>)
        ensures
            r == self.violation(),
    {
        let zero = Scalar::zero();
        if !zero.lt(self.major_radius) {
            return Some(ConfigError::MajorRadius(self.major_radius));
        }
        if !zero.lt(self.minor_radius) {
            return Some(ConfigError::MinorRadius(self.minor_radius));
        }
        if !zero.lt(self.zoom) {
            return Some(ConfigError::Zoom(self.zoom));
        }
        if self.granularity <= 0 {
            return Some(ConfigError::Granularity(self.granularity));
        }
        if self.screen_size[0] <= 0 || self.screen_size[1] <= 0 {
            return Some(ConfigError::ScreenSize(self.screen_size[0], self.screen_size[1]));
        }
        if !speed_in_range(self.rotation_speed[0]) {
            return Some(ConfigError::RotationSpeed(0, self.rotation_speed[0]));
        }
        if !speed_in_range(self.rotation_speed[1]) {
            return Some(ConfigError::RotationSpeed(1, self.rotation_speed[1]));
        }
        if !speed_in_range(self.rotation_speed[2]) {
            return Some(ConfigError::RotationSpeed(2, self.rotation_speed[2]));
        }
        if !angle_in_range(self.rotation_angle[0]) {
            return Some(ConfigError::RotationAngle(0, self.rotation_angle[0]));
        }
        if !angle_in_range(self.rotation_angle[1]) {
            return Some(ConfigError::RotationAngle(1, self.rotation_angle[1]));
        }
        if !angle_in_range(self.rotation_angle[2]) {
            return Some(ConfigError::RotationAngle(2, self.rotation_angle[2]));
        }
        None
    }
}

/// The parameters gathered into one value.
pub open spec fn parameters(
    major_radius: Scalar,
    minor_radius: Scalar,
    zoom: Scalar,
    rotation_speed: [Scalar; 3],
    rotation_angle: [Scalar; 3],
    granularity: i64,
    screen_size: [i64; 2],
) -> TorusParameters {
    TorusParameters {
        major_radius,
        minor_radius,
        zoom,
        rotation_speed,
        rotation_angle,
        granularity,
        screen_size,
        light_vector: None,
    }
}

/// One point of the surface after rotation and projection: its place along
/// the rows, its place along the columns, and its depth. A greater depth is
/// nearer to the viewer.
#[derive(Clone, Copy, Debug)]
pub struct Sample {
    pub x: Scalar,
    pub y: Scalar,
    pub z: Scalar,
}

/// The two fields that rasterizing fills: the brightness of each cell and
/// the depth of the nearest sample seen in it.
pub ghost struct Raster {
    pub levels: Seq<Seq<u8>>,
    pub depths: Seq<Seq<Scalar>>,
}

/// A brightness one step up, held at the ceiling.
pub open spec fn brighter(level: u8) -> u8 {
    if level + STEP >= FULL {
        FULL
    } else {
        (level + STEP) as u8
    }
}

/// The raster before any sample: dark, with depth zero everywhere.
pub open spec fn blank(rows: u64, cols: u64) -> Raster {
    Raster {
        levels: uniform(rows as int, cols as int, 0u8),
        depths: uniform(rows as int, cols as int, Scalar { bits: 0 }),
    }
}

/// The raster after one more sample. A sample that falls outside the screen
/// changes nothing. One that falls into a cell changes it only if it is
/// nearer than every sample recorded there before: then its depth is
/// recorded and the cell becomes one step brighter.
pub open spec fn plot(r: Raster, s: Sample, rows: u64, cols: u64) -> Raster {
    match (s.x.cell(rows), s.y.cell(cols)) {
        (Some(i), Some(j)) => if r.depths[i as int][j as int].less(s.z) {
            Raster {
                levels: with_cell(
                    r.levels,
                    i as int,
                    j as int,
                    brighter(r.levels[i as int][j as int]),
                ),
                depths: with_cell(r.depths, i as int, j as int, s.z),
            }
        } else {
            r
        },
        _ => r,
    }
}

/// The raster after all of `samples`, taken in order.
pub open spec fn rasterize(samples: Seq<Sample>, rows: u64, cols: u64) -> Raster
    decreases samples.len(),
{
    if samples.len() == 0 {
        blank(rows, cols)
    } else {
        plot(rasterize(samples.drop_last(), rows, cols), samples.last(), rows, cols)
    }
}

/// `r` has the shape of the screen and no cell is brighter than the ceiling.
pub open spec fn raster_ok(r: Raster, rows: u64, cols: u64) -> bool {
    &&& is_grid(r.levels, rows as int, cols as int)
    &&& is_grid(r.depths, rows as int, cols as int)
    &&& forall|i: int, j: int|
        0 <= i < rows && 0 <= j < cols ==> (#[trigger] r.levels[i][j]) <= FULL
    &&& forall|i: int, j: int|
        0 <= i < rows && 0 <= j < cols ==> !(#[trigger] r.depths[i][j]).is_nan()
}

/// The sample falls into the cell in row `i`, column `j`.
pub open spec fn hits(s: Sample, rows: u64, cols: u64, i: int, j: int) -> bool {
    s.x.cell(rows) == Some(i as u64) && s.y.cell(cols) == Some(j as u64)
}

/// How often the depth record of a cell was raised: the number of samples
/// that fell into the cell and were nearer than every sample that had
/// fallen into it before.
pub open spec fn records(samples: Seq<Sample>, rows: u64, cols: u64, i: int, j: int) -> nat
    decreases samples.len(),
{
    if samples.len() == 0 {
        0
    } else {
        records(samples.drop_last(), rows, cols, i, j) + if hits(samples.last(), rows, cols, i, j)
            && rasterize(samples.drop_last(), rows, cols).depths[i][j].less(samples.last().z) {
            1nat
        } else {
            0nat
        }
    }
}

/// Plotting a sample keeps the shape of the raster and the ceiling.
pub proof fn lemma_plot_ok(r: Raster, s: Sample, rows: u64, cols: u64)
    requires
        raster_ok(r, rows, cols),
    ensures
        raster_ok(plot(r, s, rows, cols), rows, cols),
{
    s.x.lemma_cell_on_axis(rows);
    s.y.lemma_cell_on_axis(cols);
    match (s.x.cell(rows), s.y.cell(cols)) {
        (Some(i), Some(j)) => {
            lemma_with_cell_shape(
                r.levels,
                rows as int,
                cols as int,
                i as int,
                j as int,
                brighter(r.levels[i as int][j as int]),
            );
            lemma_with_cell_shape(r.depths, rows as int, cols as int, i as int, j as int, s.z);
        },
        _ => {},
    }
}

/// Whatever the samples, the brightness field has exactly the screen's rows
/// and columns, and every brightness lies between dark and the ceiling.
pub proof fn lemma_rasterize_ok(samples: Seq<Sample>, rows: u64, cols: u64)
    ensures
        raster_ok(rasterize(samples, rows, cols), rows, cols),
    decreases samples.len(),
{
    if samples.len() > 0 {
        lemma_rasterize_ok(samples.drop_last(), rows, cols);
        lemma_plot_ok(rasterize(samples.drop_last(), rows, cols), samples.last(), rows, cols);
    }
}

/// Plotting a sample lowers no depth record, and where the sample falls
/// into a cell, the record of that cell is at least the sample's depth.
pub proof fn lemma_plot_raises(r: Raster, s: Sample, rows: u64, cols: u64, i: int, j: int)
    requires
        raster_ok(r, rows, cols),
        0 <= i < rows,
        0 <= j < cols,
    ensures
        r.depths[i][j].less_eq(plot(r, s, rows, cols).depths[i][j]),
        hits(s, rows, cols, i, j) && !s.z.is_nan() ==> s.z.less_eq(
            plot(r, s, rows, cols).depths[i][j],
        ),
        plot(r, s, rows, cols).depths[i][j] == r.depths[i][j] || (hits(s, rows, cols, i, j)
            && plot(r, s, rows, cols).depths[i][j] == s.z),
        plot(r, s, rows, cols).levels[i][j] == (if hits(s, rows, cols, i, j)
            && r.depths[i][j].less(s.z) {
            brighter(r.levels[i][j])
        } else {
            r.levels[i][j]
        }),
{
    s.x.lemma_cell_on_axis(rows);
    s.y.lemma_cell_on_axis(cols);
    lemma_plot_ok(r, s, rows, cols);
    match (s.x.cell(rows), s.y.cell(cols)) {
        (Some(a), Some(b)) => {
            lemma_with_cell_shape(
                r.levels,
                rows as int,
                cols as int,
                a as int,
                b as int,
                brighter(r.levels[a as int][b as int]),
            );
            lemma_with_cell_shape(r.depths, rows as int, cols as int, a as int, b as int, s.z);
        },
        _ => {},
    }
}

/// Occlusion: after rasterizing, the depth record of a cell is the depth of
/// the nearest sample that fell into it, or zero where no sample in front
/// of depth zero did. No sample that fell into the cell is nearer than the
/// record, and the record is zero or the depth of one of those samples.
pub proof fn lemma_depth_is_nearest(samples: Seq<Sample>, rows: u64, cols: u64, i: int, j: int)
    requires
        0 <= i < rows,
        0 <= j < cols,
    ensures
        forall|k: int|
            0 <= k < samples.len() && hits(#[trigger] samples[k], rows, cols, i, j)
                && !samples[k].z.is_nan() ==> samples[k].z.less_eq(
                rasterize(samples, rows, cols).depths[i][j],
            ),
        rasterize(samples, rows, cols).depths[i][j] == (Scalar { bits: 0 }) || exists|k: int|
            0 <= k < samples.len() && hits(#[trigger] samples[k], rows, cols, i, j) && samples[k].z
                == rasterize(samples, rows, cols).depths[i][j],
    decreases samples.len(),
{
    if samples.len() > 0 {
        let front = samples.drop_last();
        let before = rasterize(front, rows, cols);
        let after = rasterize(samples, rows, cols);
        lemma_depth_is_nearest(front, rows, cols, i, j);
        lemma_rasterize_ok(front, rows, cols);
        lemma_rasterize_ok(samples, rows, cols);
        lemma_plot_raises(before, samples.last(), rows, cols, i, j);
        assert forall|k: int|
            0 <= k < samples.len() && hits(#[trigger] samples[k], rows, cols, i, j)
                && !samples[k].z.is_nan() implies samples[k].z.less_eq(after.depths[i][j]) by {
            if k < samples.len() - 1 {
                assert(front[k] == samples[k]);
            }
        }
        if after.depths[i][j] != (Scalar { bits: 0 }) {
            if after.depths[i][j] == before.depths[i][j] {
                let k = choose|k: int|
                    0 <= k < front.len() && hits(#[trigger] front[k], rows, cols, i, j)
                        && front[k].z == before.depths[i][j];
                assert(samples[k] == front[k]);
            } else {
                assert(samples[samples.len() - 1] == samples.last());
            }
        }
    }
}

/// Shading: the brightness of a cell is one step for each time that a
/// nearer sample arrived in it, held at the ceiling.
pub proof fn lemma_brightness_counts_records(
    samples: Seq<Sample>,
    rows: u64,
    cols: u64,
    i: int,
    j: int,
)
    requires
        0 <= i < rows,
        0 <= j < cols,
    ensures
        rasterize(samples, rows, cols).levels[i][j] == (if STEP * records(
            samples,
            rows,
            cols,
            i,
            j,
        ) >= FULL {
            FULL as int
        } else {
            STEP * records(samples, rows, cols, i, j)
        }),
    decreases samples.len(),
{
    if samples.len() > 0 {
        let front = samples.drop_last();
        lemma_brightness_counts_records(front, rows, cols, i, j);
        lemma_rasterize_ok(front, rows, cols);
        lemma_plot_raises(rasterize(front, rows, cols), samples.last(), rows, cols, i, j);
    }
}

/// The order in which the surface is sampled: the sweep around the major
/// radius takes the steps `0 .. granularity`, and for each of them the angle
/// around the tube takes the steps `0 ..= granularity`, the last of which
/// closes the seam.
pub open spec fn sample_order(granularity: int) -> Seq<(i64, i64)> {
    Seq::new(
        (granularity * (granularity + 1)) as nat,
        |k: int| ((k / (granularity + 1)) as i64, (k % (granularity + 1)) as i64),
    )
}

/// A torus with validated parameters.
#[derive(Debug)]
pub struct Donut {
    params: TorusParameters,
}

impl View for Donut {
    type V = TorusParameters;

    closed spec fn view(&self) -> TorusParameters {
        self.params
    }
}

impl Donut {
    /// The invariant of the type.
    pub open spec fn wf(&self) -> bool {
        self@.sound()
    }

    /// Validates the parameters, all of them before anything is built, and
    /// builds the torus. The first rule that is broken is reported.
    pub fn new(
        major_radius: Scalar,
        minor_radius: Scalar,
        zoom: Scalar,
        rotation_speed: [Scalar; 3],
        rotation_angle: [Scalar; 3],
        granularity: i64,
        screen_size: [i64; 2],
    ) -> (r: Result<Donut, ConfigError>)
        ensures
            r is Ok <==> parameters(
                major_radius,
                minor_radius,
                zoom,
                rotation_speed,
                rotation_angle,
                granularity,
                screen_size,
            ).valid(),
            r matches Ok(d) ==> d.wf() && d@ == parameters(
                major_radius,
                minor_radius,
                zoom,
                rotation_speed,
                rotation_angle,
                granularity,
                screen_size,
            ),
            r matches Err(e) ==> parameters(
                major_radius,
                minor_radius,
                zoom,
                rotation_speed,
                rotation_angle,
                granularity,
                screen_size,
            ).violation() == Some(e),
    {
        let params = TorusParameters {
            major_radius,
            minor_radius,
            zoom,
            rotation_speed,
            rotation_angle,
            granularity,
            screen_size,
            light_vector: None,
        };
        match params.check() {
            Some(e) => Err(e),
            None => Ok(Donut { params }),
        }
    }

    /// Gives the torus a direction of light.
    pub fn with_light_vector(self, light: [Scalar; 3]) -> (d: Donut)
        requires
            self.wf(),
        ensures
            d.wf(),
            d@ == (TorusParameters { light_vector: Some(light), ..self@ }),
    {
        Donut { params: TorusParameters { light_vector: Some(light), ..self.params } }
    }

    /// The parameters as they stand.
    pub fn params(&self) -> (p: TorusParameters)
        ensures
            p == self@,
    {
        self.params
    }

    /// The number of rows of the screen.
    pub fn rows(&self) -> (n: i64)
        ensures
            n == self@.screen_size[0],
    {
        self.params.screen_size[0]
    }

    /// The number of columns of the screen.
    pub fn cols(&self) -> (n: i64)
        ensures
            n == self@.screen_size[1],
    {
        self.params.screen_size[1]
    }

    /// Turns the projected samples, in the order given, into the brightness
    /// field of one frame. The depth record is used and discarded.
    pub fn render(&self, samples: &Vec<Sample>) -> (screen: Vec<Vec<u8>>)
        requires
            self.wf(),
            self@.screen_size[0] <= usize::MAX,
            self@.screen_size[1] <= usize::MAX,
        ensures
            grid(&screen) == rasterize(
                samples@,
                self@.screen_size[0] as u64,
                self@.screen_size[1] as u64,
            ).levels,
            is_grid(grid(&screen), self@.screen_size[0] as int, self@.screen_size[1] as int),
            forall|i: int, j: int|
                0 <= i < self@.screen_size[0] && 0 <= j < self@.screen_size[1] ==> (
                #[trigger] grid(&screen)[i][j]) <= FULL,
    {
        let rows = self.params.screen_size[0] as u64;
        let cols = self.params.screen_size[1] as u64;
        let mut z_buffer = filled(rows as usize, cols as usize, Scalar::zero());
        let mut screen = filled(rows as usize, cols as usize, 0u8);
        let mut k: usize = 0;
        while k < samples.len()
            invariant
                k <= samples@.len(),
                rows <= usize::MAX,
                cols <= usize::MAX,
                (Raster { levels: grid(&screen), depths: grid(&z_buffer) }) == rasterize(
                    samples@.take(k as int),
                    rows,
                    cols,
                ),
            decreases samples@.len() - k,
        {
            let s = samples[k];
            proof {
                assert(samples@.take(k + 1).drop_last() =~= samples@.take(k as int));
                lemma_rasterize_ok(samples@.take(k as int), rows, cols);
                lemma_rasterize_ok(samples@.take(k + 1), rows, cols);
            }
            match (s.x.cell_below(rows), s.y.cell_below(cols)) {
                (Some(i), Some(j)) => {
                    let i = i as usize;
                    let j = j as usize;
                    if z_buffer[i][j].lt(s.z) {
                        set_cell(&mut z_buffer, i, j, s.z);
                        let level = screen[i][j];
                        let raised = if level >= FULL - STEP {
                            FULL
                        } else {
                            level + STEP
                        };
                        set_cell(&mut screen, i, j, raised);
                    }
                },
                _ => {},
            }
            k += 1;
        }
        proof {
            assert(samples@.take(k as int) =~= samples@);
            lemma_rasterize_ok(samples@, rows, cols);
        }
        screen
    }

    /// Stores the angles that the torus has after one more frame.
    pub fn update(&mut self, rotation_angle: [Scalar; 3])
        requires
            old(self).wf(),
        ensures
            final(self).wf(),
            final(self)@ == (TorusParameters { rotation_angle, ..old(self)@ }),
    {
        self.params.rotation_angle = rotation_angle;
    }

    /// The steps of the two surface angles at which the torus is sampled, in
    /// the order in which the samples are rasterized.
    pub fn sample_grid(&self) -> (pairs: Vec<(i64, i64)>)
        requires
            self.wf(),
            self@.granularity * (self@.granularity + 1) <= usize::MAX,
        ensures
            pairs@ == sample_order(self@.granularity as int),
    {
        let g = self.params.granularity;
        let mut pairs: Vec<(i64, i64)> = Vec::new();
        assert(g + 1 <= g * (g + 1)) by (nonlinear_arith)
            requires
                g >= 1,
        ;
        let mut i: i64 = 0;
        while i < g
            invariant
                0 <= i <= g,
                0 < g < i64::MAX,
                g * (g + 1) <= usize::MAX,
                pairs@.len() == i * (g + 1),
                forall|k: int|
                    0 <= k < pairs@.len() ==> #[trigger] pairs@[k] == ((k / (g + 1)) as i64, (k % (
                    g + 1)) as i64),
            decreases g - i,
        {
            let mut j: i64 = 0;
            while j <= g
                invariant
                    0 <= i < g,
                    0 <= j <= g + 1,
                    0 < g < i64::MAX,
                    g * (g + 1) <= usize::MAX,
                    pairs@.len() == i * (g + 1) + j,
                    forall|k: int|
                        0 <= k < pairs@.len() ==> #[trigger] pairs@[k] == (
                            (k / (g + 1)) as i64,
                            (k % (g + 1)) as i64,
                        ),
                decreases g + 1 - j,
            {
                proof {
                    vstd::arithmetic::div_mod::lemma_fundamental_div_mod_converse(
                        i * (g + 1) + j,
                        g + 1,
                        i as int,
                        j as int,
                    );
                    assert(i * (g + 1) + j < g * (g + 1)) by (nonlinear_arith)
                        requires
                            0 <= i < g,
                            0 <= j <= g,
                    ;
                }
                pairs.push((i, j));
                j += 1;
            }
            assert(i * (g + 1) + (g + 1) == (i + 1) * (g + 1)) by (nonlinear_arith);
            i += 1;
        }
        assert(pairs@ =~= sample_order(g as int));
        pairs
    }
}

} // verus!

//! The raster of a one-dimensional history: one row per tick, one column per
//! display position, the safe zone marked in every row.

use vstd::prelude::*;

verus! {

/// What one pixel of the raster shows.
#[derive(Debug, Copy, Clone, PartialEq, Eq, Structural)]
pub enum Mark {
    /// Nothing: black.
    Empty,
    /// An organism inside the safe zone: green.
    Inside,
    /// An organism outside the safe zone: white.
    Outside,
    /// A boundary of the safe zone: red.
    Boundary,
}

impl Mark {
    /// The colour of a mark, as red, green and blue.
    pub open spec fn colour(self) -> (u8, u8, u8) {
        match self {
            Mark::Empty => (0u8, 0u8, 0u8),
            Mark::Inside => (0u8, 255u8, 0u8),
            Mark::Outside => (255u8, 255u8, 255u8),
            Mark::Boundary => (255u8, 0u8, 0u8),
        }
    }

    /// The colour of a mark, as red, green and blue.
    pub fn rgb(self) -> (colour: [u8; 3])
        ensures
            colour@ == seq![self.colour().0, self.colour().1, self.colour().2],
    {
        let colour = match self {
            Mark::Empty => [0, 0, 0],
            Mark::Inside => [0, 255, 0],
            Mark::Outside => [255, 255, 255],
            Mark::Boundary => [255, 0, 0],
        };
        assert(colour@ =~= seq![self.colour().0, self.colour().1, self.colour().2]);
        colour
    }
}

/// What one tick contributes to the raster: the display position of every
/// organism and the two bounds of the safe zone, each already scaled to the
/// width of the raster. A value beyond the last column is drawn in the last
/// column.
#[derive(Debug, Clone)]
pub struct Frame {
    pub positions: Vec<u32>,
    pub zone_low: u32,
    pub zone_high: u32,
}

/// The column that a scaled value is drawn in.
pub open spec fn column(scaled: u32, width: u32) -> int {
    if scaled < width {
        scaled as int
    } else {
        width - 1
    }
}

/// The mark of an organism at column `x`.
pub open spec fn organism_mark(x: int, low: int, high: int) -> Mark {
    if low <= x <= high {
        Mark::Inside
    } else {
        Mark::Outside
    }
}

/// The row after one more organism is drawn at column `x`. Where the column
/// is taken and is not the last, the organism moves one column to the right;
/// its mark still goes by the column it came for.
pub open spec fn plot(row: Seq<Mark>, x: int, low: int, high: int) -> Seq<Mark> {
    let at = if x + 1 < row.len() && row[x] != Mark::Empty {
        x + 1
    } else {
        x
    };
    row.update(at, organism_mark(x, low, high))
}

/// The row after the organisms at the given scaled positions are drawn, one
/// after another, on an empty row.
pub open spec fn plotted(width: u32, positions: Seq<u32>, low: int, high: int) -> Seq<Mark>
    decreases positions.len(),
{
    if positions.len() == 0 {
        Seq::new(width as nat, |i: int| Mark::Empty)
    } else {
        plot(
            plotted(width, positions.drop_last(), low, high),
            column(positions.last(), width),
            low,
            high,
        )
    }
}

/// The finished row of one tick: the organisms, then the two boundaries of
/// the safe zone drawn over them.
pub open spec fn rendered_row(width: u32, frame: Frame) -> Seq<Mark> {
    let low = column(frame.zone_low, width);
    let high = column(frame.zone_high, width);
    plotted(width, frame.positions@, low, high).update(low, Mark::Boundary).update(
        high,
        Mark::Boundary,
    )
}

/// The column that a scaled value is drawn in.
pub fn clamp_column(scaled: u32, width: u32) -> (x: u32)
    requires
        width > 0,
    ensures
        x == column(scaled, width),
        x < width,
{
    if scaled < width {
        scaled
    } else {
        width - 1
    }
}

/// Renders the row of one tick.
pub fn render_row(width: u32, frame: &Frame) -> (row: Vec<Mark>)
    requires
        width > 0,
    ensures
        row@ == rendered_row(width, *frame),
        row@.len() == width,
        row@[column(frame.zone_low, width)] == Mark::Boundary,
        row@[column(frame.zone_high, width)] == Mark::Boundary,
{
    let low = clamp_column(frame.zone_low, width);
    let high = clamp_column(frame.zone_high, width);
    let mut row: Vec<Mark> = Vec::new();
    let mut i: u32 = 0;
    while i < width
        invariant
            i <= width,
            row@.len() == i,
            forall|k: int| 0 <= k < i ==> row@[k] == Mark::Empty,
        decreases width - i,
    {
        row.push(Mark::Empty);
        i += 1;
    }
    assert(row@ == plotted(width, frame.positions@.take(0), low as int, high as int));
    let mut k: usize = 0;
    while k < frame.positions.len()
        invariant
            width > 0,
            low < width,
            high < width,
            k <= frame.positions@.len(),
            row@.len() == width,
            row@ == plotted(width, frame.positions@.take(k as int), low as int, high as int),
        decreases frame.positions@.len() - k,
    {
        let x = clamp_column(frame.positions[k], width);
        let mark = if x >= low && x <= high {
            Mark::Inside
        } else {
            Mark::Outside
        };
        let at = if x < width - 1 && row[x as usize] != Mark::Empty {
            x + 1
        } else {
            x
        };
        row.set(at as usize, mark);
        proof {
            let grown = frame.positions@.take(k + 1);
            assert(grown.drop_last() == frame.positions@.take(k as int));
            assert(grown.last() == frame.positions@[k as int]);
        }
        k += 1;
    }
    assert(frame.positions@.take(k as int) == frame.positions@);
    row.set(low as usize, Mark::Boundary);
    row.set(high as usize, Mark::Boundary);
    row
}

/// Renders a history as a raster of `max_org_count` columns: one row per
/// tick, in the order of the history. In each row every organism is drawn at
/// its column, green inside the safe zone and white outside it, and the two
/// boundaries of the zone are drawn in red over whatever is there.
pub fn create_1d_sim_image(max_org_count: u32, sim_history: &Vec<Frame>) -> (image: Vec<
    Vec<Mark>,
>)
    requires
        max_org_count > 0,
    ensures
        image@.len() == sim_history@.len(),
        forall|t: int|
            0 <= t < image@.len() ==> (#[trigger] image@[t])@ == rendered_row(
                max_org_count,
                sim_history@[t],
            ),
        forall|t: int| 0 <= t < image@.len() ==> (#[trigger] image@[t])@.len() == max_org_count,
{
    let mut image: Vec<Vec<Mark>> = Vec::new();
    let mut t: usize = 0;
    while t < sim_history.len()
        invariant
            max_org_count > 0,
            t <= sim_history@.len(),
            image@.len() == t,
            forall|u: int|
                0 <= u < image@.len() ==> (#[trigger] image@[u])@ == rendered_row(
                    max_org_count,
                    sim_history@[u],
                ),
            forall|u: int| 0 <= u < image@.len() ==> (#[trigger] image@[u])@.len() == max_org_count,
        decreases sim_history@.len() - t,
    {
        let row = render_row(max_org_count, &sim_history[t]);
        image.push(row);
        t += 1;
    }
    image
}

} // verus!

use vstd::prelude::*;

verus! {

/// The crab of the training dashboard, seen as values.
pub struct CrabModel {
    /// Columns from the left edge to the crab.
    pub position: int,
    /// Columns moved per frame.
    pub move_speed: int,
    /// The crab walks to the left.
    pub going_left: bool,
    /// Half the width of the crab drawing.
    pub half_width: int,
}

/// A crab that walks back and forth across the dashboard.
pub struct CrabAnimation {
    position: i32,
    move_speed: i32,
    going_left: bool,
    half_width: u16,
}

impl View for CrabAnimation {
    type V = CrabModel;

    closed spec fn view(&self) -> CrabModel {
        CrabModel {
            position: self.position as int,
            move_speed: self.move_speed as int,
            going_left: self.going_left,
            half_width: self.half_width as int,
        }
    }
}

impl CrabModel {
    /// The crab touches the left edge or reaches past the right edge of a terminal of
    /// `terminal_width` columns.
    pub open spec fn out_of_bounds(self, terminal_width: int) -> bool {
        self.position <= 0 || self.position + self.half_width > terminal_width
    }

    /// The position after one frame: one step to the left or to the right.
    pub open spec fn next_position(self) -> int {
        if self.going_left {
            self.position - self.move_speed
        } else {
            self.position + self.move_speed
        }
    }
}

impl CrabAnimation {
    /// The crab as the dashboard starts it: at column 64, walking right by 2 columns per
    /// frame, 50 columns for half its width.
    pub fn new() -> (c: Self)
        ensures
            c@ == (CrabModel { position: 64, move_speed: 2, going_left: false, half_width: 50 }),
    {
        CrabAnimation { position: 64, move_speed: 2, going_left: false, half_width: 50 }
    }

    /// Whether the crab is out of the bounds of a terminal `terminal_width` columns wide.
    pub fn is_oob(&self, terminal_width: u16) -> (r: bool)
        requires
            self@.position + self@.half_width <= i32::MAX,
        ensures
            r == self@.out_of_bounds(terminal_width as int),
    {
        self.position <= 0_i32 || self.position + self.half_width as i32 > terminal_width as i32
    }

    /// Whether the next move keeps the crab's position, and its right edge, within `i32`.
    pub fn can_step(&self) -> (r: bool)
        ensures
            r == (i32::MIN <= self@.next_position() && self@.next_position() + self@.half_width
                <= i32::MAX),
    {
        let next = if self.going_left {
            self.position as i64 - self.move_speed as i64
        } else {
            self.position as i64 + self.move_speed as i64
        };
        i32::MIN as i64 <= next && next + self.half_width as i64 <= i32::MAX as i64
    }

    /// Columns from the left edge to the crab.
    pub fn position(&self) -> (p: i32)
        ensures
            p == self@.position,
    {
        self.position
    }

    /// Moves the crab one frame; it turns around where the move takes it out of bounds.
    pub fn step(&mut self, terminal_width: u16)
        requires
            i32::MIN <= old(self)@.next_position(),
            old(self)@.next_position() + old(self)@.half_width <= i32::MAX,
        ensures
            final(self)@.position == old(self)@.next_position(),
            final(self)@.move_speed == old(self)@.move_speed,
            final(self)@.half_width == old(self)@.half_width,
            final(self)@.going_left == (old(self)@.going_left != CrabModel {
                position: old(self)@.next_position(),
                ..old(self)@
            }.out_of_bounds(terminal_width as int)),
    {
        self.position = if self.going_left {
            self.position - self.move_speed
        } else {
            self.position + self.move_speed
        };
        if self.is_oob(terminal_width) {
            self.going_left = !self.going_left;
        }
    }

    /// The number of columns of padding before the crab: its position.
    pub fn padding(&self) -> (p: usize)
        requires
            self@.position >= 0,
        ensures
            p == self@.position,
    {
        self.position as usize
    }
}

/// Elapsed seconds split into hours, minutes and seconds.
pub fn elapsed_hms(elapsed_secs: u64) -> (r: (u64, u64, u64))
    ensures
        r.0 == elapsed_secs / 3600,
        r.1 == (elapsed_secs % 3600) / 60,
        r.2 == elapsed_secs % 60,
        r.0 * 3600 + r.1 * 60 + r.2 == elapsed_secs,
        r.1 < 60,
        r.2 < 60,
{
    let hours = elapsed_secs / 3600;
    let minutes = (elapsed_secs % 3600) / 60;
    let seconds = elapsed_secs % 60;
    (hours, minutes, seconds)
}

/// The number of batches done in the current epoch, or zero where epochs have no batches.
pub fn batches_in_epoch(processed_batches: usize, batches_per_epoch: usize) -> (n: usize)
    ensures
        batches_per_epoch > 0 ==> n == processed_batches % batches_per_epoch,
        batches_per_epoch == 0 ==> n == 0,
{
    if batches_per_epoch > 0 {
        processed_batches % batches_per_epoch
    } else {
        0
    }
}

/// How many points the loss chart plots in an area `area_width` columns wide: about one per
/// two columns inside the borders, at least 50 and at most 200.
pub fn loss_chart_points(area_width: u16) -> (n: usize)
    ensures
        n == if area_width < 4 {
            50
        } else if (area_width - 4) / 2 < 50 {
            50
        } else if (area_width - 4) / 2 > 200 {
            200
        } else {
            ((area_width - 4) / 2) as int
        },
{
    let chart_width = area_width.saturating_sub(4) as usize;
    let half = chart_width / 2;
    if half < 50 {
        50
    } else if half > 200 {
        200
    } else {
        half
    }
}

} // verus!

//! A pane's cursor: a position kept within the pane's bounds and a scroll
//! offset on each axis.

use vstd::prelude::*;

verus! {

/// A direction of cursor movement.
#[derive(Clone, Copy, Debug, PartialEq, Eq, Structural)]
pub enum Direction {
    Up,
    Down,
    Left,
    Right,
}

/// A pane's cursor: a position inside the visible rectangle
/// `[x_min, x_max] x [y_min, y_max]` and how far the content is scrolled
/// on each axis. The logical position is `position - min + offset`.
#[derive(Clone, Copy, Debug, PartialEq, Eq, Structural)]
pub struct Cursor {
    pub x: u16,
    pub y: u16,
    pub x_offset: u16,
    pub y_offset: u16,
    pub x_max: u16,
    pub y_max: u16,
    pub x_min: u16,
    pub y_min: u16,
}

/// `v` brought into `[lo, hi]`; `lo` wins when the bounds cross.
pub open spec fn clamped(v: int, lo: u16, hi: u16) -> u16 {
    if v > hi {
        hi
    } else if v < lo {
        lo
    } else {
        v as u16
    }
}

/// One less, but not below 0.
pub open spec fn decremented(v: u16) -> u16 {
    if v > 0 {
        (v - 1) as u16
    } else {
        0
    }
}

/// The offset after asking for position `v` on an axis with bounds
/// `[lo, hi]`: one more past the upper bound, one less (not below 0) under
/// the lower bound.
pub open spec fn scrolled(v: int, offset: u16, lo: u16, hi: u16) -> u16 {
    if v > hi {
        (offset + 1) as u16
    } else if v < lo {
        decremented(offset)
    } else {
        offset
    }
}

/// The cursor after asking to move to `(x, y)`.
pub open spec fn moved(c: Cursor, x: int, y: int) -> Cursor {
    Cursor {
        x: if x > c.x_max { c.x_max } else if x < c.x_min { c.x_min } else { x as u16 },
        y: if y > c.y_max { c.y_max } else if y < c.y_min { c.y_min } else { y as u16 },
        x_offset: scrolled(x, c.x_offset, c.x_min, c.x_max),
        y_offset: scrolled(y, c.y_offset, c.y_min, c.y_max),
        ..c
    }
}

/// Whether a move to `(x, y)` keeps the offsets within `u16`.
pub open spec fn can_move(c: Cursor, x: int, y: int) -> bool {
    &&& x > c.x_max ==> c.x_offset < u16::MAX
    &&& y > c.y_max ==> c.y_offset < u16::MAX
}

/// The cursor after one step in a direction: at the top or left edge a
/// step up or left scrolls back without moving; otherwise a step asks for
/// the neighbouring position.
pub open spec fn stepped(c: Cursor, direction: Direction) -> Cursor {
    match direction {
        Direction::Up => if c.y == c.y_min {
            Cursor { y_offset: decremented(c.y_offset), ..c }
        } else {
            moved(c, c.x as int, c.y - 1)
        },
        Direction::Down => moved(c, c.x as int, c.y + 1),
        Direction::Left => if c.x == c.x_min {
            Cursor { x_offset: decremented(c.x_offset), ..c }
        } else {
            moved(c, c.x - 1, c.y as int)
        },
        Direction::Right => moved(c, c.x + 1, c.y as int),
    }
}

/// Whether a step keeps the offsets within `u16`.
pub open spec fn can_step(c: Cursor, direction: Direction) -> bool {
    match direction {
        Direction::Up => c.y == c.y_min || can_move(c, c.x as int, c.y - 1),
        Direction::Down => can_move(c, c.x as int, c.y + 1),
        Direction::Left => c.x == c.x_min || can_move(c, c.x - 1, c.y as int),
        Direction::Right => can_move(c, c.x + 1, c.y as int),
    }
}

/// The cursor after `n` steps in one direction.
pub open spec fn stepped_times(c: Cursor, direction: Direction, n: nat) -> Cursor
    decreases n,
{
    if n == 0 {
        c
    } else {
        stepped(stepped_times(c, direction, (n - 1) as nat), direction)
    }
}

impl Cursor {
    /// A cursor at the origin of a pane that fills a terminal of the given
    /// size, less the two bottom rows.
    pub open spec fn new_spec(width: u16, height: u16) -> Cursor {
        Cursor {
            x: 0,
            y: 0,
            x_offset: 0,
            y_offset: 0,
            x_max: width,
            y_max: if height >= 2 { (height - 2) as u16 } else { 0 },
            x_min: 0,
            y_min: 0,
        }
    }

    /// The position lies within the bounds on both axes.
    pub open spec fn wf(&self) -> bool {
        &&& self.x_min <= self.x <= self.x_max
        &&& self.y_min <= self.y <= self.y_max
    }

    /// A cursor at the origin of a pane that fills a terminal of the given
    /// size, less the two bottom rows.
    pub fn new(width: u16, height: u16) -> (r: Self)
        ensures
            r == Cursor::new_spec(width, height),
            r.wf(),
    {
        Cursor {
            x: 0,
            y: 0,
            x_offset: 0,
            y_offset: 0,
            x_max: width,
            y_max: height.saturating_sub(2),
            x_min: 0,
            y_min: 0,
        }
    }

    /// Sets the upper bounds, not below the lower ones, and brings the
    /// position within them.
    pub fn set_max(&mut self, x: u16, y: u16)
        ensures
            ({
                let x_max = if x >= old(self).x_min { x } else { old(self).x_min };
                let y_max = if y >= old(self).y_min { y } else { old(self).y_min };
                *final(self) == Cursor {
                    x_max,
                    y_max,
                    x: clamped(old(self).x as int, old(self).x_min, x_max),
                    y: clamped(old(self).y as int, old(self).y_min, y_max),
                    ..*old(self)
                }
            }),
            final(self).wf(),
    {
        self.x_max = if x >= self.x_min { x } else { self.x_min };
        self.y_max = if y >= self.y_min { y } else { self.y_min };
        self.update(self.x, self.y);
    }

    /// Sets the lower bounds, not above the upper ones, and brings the
    /// position within them.
    pub fn set_min(&mut self, x: u16, y: u16)
        ensures
            ({
                let x_min = if x <= old(self).x_max { x } else { old(self).x_max };
                let y_min = if y <= old(self).y_max { y } else { old(self).y_max };
                *final(self) == Cursor {
                    x_min,
                    y_min,
                    x: clamped(old(self).x as int, x_min, old(self).x_max),
                    y: clamped(old(self).y as int, y_min, old(self).y_max),
                    ..*old(self)
                }
            }),
            final(self).wf(),
    {
        self.x_min = if x <= self.x_max { x } else { self.x_max };
        self.y_min = if y <= self.y_max { y } else { self.y_max };
        self.update(self.x, self.y);
    }

    /// Puts the position at `(x, y)`, brought within the bounds.
    pub fn update(&mut self, x: u16, y: u16)
        ensures
            *final(self) == (Cursor {
                x: clamped(x as int, old(self).x_min, old(self).x_max),
                y: clamped(y as int, old(self).y_min, old(self).y_max),
                ..*old(self)
            }),
            old(self).x_min <= old(self).x_max && old(self).y_min <= old(self).y_max ==> final(self).wf(),
    {
        self.x = if x > self.x_max { self.x_max } else if x < self.x_min { self.x_min } else { x };
        self.y = if y > self.y_max { self.y_max } else if y < self.y_min { self.y_min } else { y };
    }

    /// Moves to `(x, y)`. Past an upper bound the position stays at the
    /// bound and the content scrolls forward by one; under a lower bound the
    /// position stays at the bound and the content scrolls back by one, not
    /// below no scroll at all.
    pub fn move_to(&mut self, x: u16, y: u16)
        requires
            can_move(*old(self), x as int, y as int),
        ensures
            *final(self) == moved(*old(self), x as int, y as int),
            old(self).wf() ==> final(self).wf(),
            y > old(self).y_max ==> final(self).y_offset == old(self).y_offset + 1 && final(self).y == old(self).y_max,
            x > old(self).x_max ==> final(self).x_offset == old(self).x_offset + 1 && final(self).x == old(self).x_max,
    {
        self.move_to_wide(x as i32, y as i32);
    }

    fn move_to_wide(&mut self, x: i32, y: i32)
        requires
            can_move(*old(self), x as int, y as int),
        ensures
            *final(self) == moved(*old(self), x as int, y as int),
            old(self).wf() ==> final(self).wf(),
    {
        if x > self.x_max as i32 {
            self.x_offset = self.x_offset + 1;
            self.x = self.x_max;
        } else if x < self.x_min as i32 {
            self.x_offset = self.x_offset.saturating_sub(1);
            self.x = self.x_min;
        } else {
            self.x = x as u16;
        }
        if y > self.y_max as i32 {
            self.y_offset = self.y_offset + 1;
            self.y = self.y_max;
        } else if y < self.y_min as i32 {
            self.y_offset = self.y_offset.saturating_sub(1);
            self.y = self.y_min;
        } else {
            self.y = y as u16;
        }
    }

    /// Whether a move to `(x, y)` keeps the offsets within `u16`.
    pub fn movable(&self, x: u16, y: u16) -> (r: bool)
        ensures
            r == can_move(*self, x as int, y as int),
    {
        (x <= self.x_max || self.x_offset < u16::MAX) && (y <= self.y_max || self.y_offset < u16::MAX)
    }

    /// Whether a step in `direction` keeps the offsets within `u16`.
    pub fn steppable(&self, direction: Direction) -> (r: bool)
        ensures
            r == can_step(*self, direction),
    {
        let x_ok = |x: i32| -> (b: bool)
            ensures
                b == (x > self.x_max ==> self.x_offset < u16::MAX),
            { x <= self.x_max as i32 || self.x_offset < u16::MAX };
        let y_ok = |y: i32| -> (b: bool)
            ensures
                b == (y > self.y_max ==> self.y_offset < u16::MAX),
            { y <= self.y_max as i32 || self.y_offset < u16::MAX };
        let (x, y) = (self.x as i32, self.y as i32);
        match direction {
            Direction::Up => self.y == self.y_min || (x_ok(x) && y_ok(y - 1)),
            Direction::Down => x_ok(x) && y_ok(y + 1),
            Direction::Left => self.x == self.x_min || (x_ok(x - 1) && y_ok(y)),
            Direction::Right => x_ok(x + 1) && y_ok(y),
        }
    }

    /// Takes one step in `direction`.
    pub fn parse_direction(&mut self, direction: Direction)
        requires
            can_step(*old(self), direction),
        ensures
            *final(self) == stepped(*old(self), direction),
            old(self).wf() ==> final(self).wf(),
    {
        match direction {
            Direction::Up => {
                if self.y == self.y_min {
                    self.y_offset = self.y_offset.saturating_sub(1);
                } else {
                    self.move_to_wide(self.x as i32, self.y as i32 - 1);
                }
            },
            Direction::Down => {
                self.move_to_wide(self.x as i32, self.y as i32 + 1);
            },
            Direction::Left => {
                if self.x == self.x_min {
                    self.x_offset = self.x_offset.saturating_sub(1);
                } else {
                    self.move_to_wide(self.x as i32 - 1, self.y as i32);
                }
            },
            Direction::Right => {
                self.move_to_wide(self.x as i32 + 1, self.y as i32);
            },
        }
    }
}

/// At the lower edge, each step down keeps the position on the edge and
/// scrolls the content forward by exactly one row, so `n` steps scroll it
/// by `n`; the column does not change.
pub proof fn steps_down_past_bottom_scroll(c: Cursor, n: nat)
    requires
        c.wf(),
        c.y == c.y_max,
        c.y_offset + n <= u16::MAX,
    ensures
        stepped_times(c, Direction::Down, n) == (Cursor { y_offset: (c.y_offset + n) as u16, ..c }),
    decreases n,
{
    if n > 0 {
        steps_down_past_bottom_scroll(c, (n - 1) as nat);
    }
}

} // verus!

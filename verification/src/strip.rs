//! The received chart, kept the way a fax arrives: a line at a time.
//!
//! One decoded line is one column of the strip on screen. The pixels are kept
//! here so a correction can be redrawn and the chart saved at any point; what
//! is handed to the texture, and when, is decided here too.

use vstd::prelude::*;

use crate::chart::{StripUpdate, whole_lines};

verus! {

/// Columns the texture starts out able to hold.
pub const INITIAL_CAPACITY: usize = 1024;

/// Columns the texture will grow to, and no further.
pub const MAX_CAPACITY: usize = 8192;

/// The capacity reached by doubling from `capacity` until it holds `lines`
/// or reaches the limit.
pub open spec fn doubled_to(capacity: nat, lines: nat) -> nat
    decreases MAX_CAPACITY * 2 - capacity,
{
    if capacity == 0 || capacity >= lines || capacity >= MAX_CAPACITY {
        capacity
    } else {
        doubled_to(capacity * 2, lines)
    }
}

/// The columns a texture is built with to hold `lines`: the smallest power
/// of two from the initial capacity up that holds them, capped at the limit.
pub open spec fn capacity_for(lines: nat) -> nat {
    doubled_to(INITIAL_CAPACITY as nat, lines)
}

/// The texture grows by doubling up to its limit: its capacity is the initial
/// one doubled a whole number of times, never past the limit, and it holds
/// every line decoded while they fit under the limit.
pub proof fn lemma_capacity_doubles_up_to_the_limit(lines: nat)
    ensures
        capacity_for(lines) == 1024 || capacity_for(lines) == 2048 || capacity_for(lines) == 4096
            || capacity_for(lines) == 8192,
        lines <= MAX_CAPACITY ==> lines <= capacity_for(lines),
        lines <= INITIAL_CAPACITY ==> capacity_for(lines) == INITIAL_CAPACITY,
{
    reveal_with_fuel(doubled_to, 5);
}

/// What the texture has to be told after an update.
#[derive(Clone, Copy, Debug, PartialEq, Eq, Structural)]
pub struct Refresh {
    /// Whether the texture has to be rebuilt at the strip's new capacity.
    pub rebuilt: bool,
    /// The first column to upload.
    pub first: usize,
    /// The column after the last one to upload.
    pub end: usize,
}

/// What the strip holds, as mathematics.
#[verifier::ext_equal]
pub struct StripState {
    pub width: nat,
    pub capacity: nat,
    pub lines: nat,
    pub gray: Seq<u8>,
}

/// The strip after adopting `update`, and whether it was adopted.
pub open spec fn applied(s: StripState, update: StripUpdate) -> (StripState, bool) {
    if update.width == 0 {
        (s, false)
    } else {
        let s1 = if update.width as nat != s.width {
            StripState { width: update.width as nat, capacity: 0, lines: 0, gray: Seq::empty() }
        } else {
            s
        };
        if !(update.replaces_all || update.first_line == 0) && update.first_line != s1.lines {
            (s1, false)
        } else {
            let base = if update.replaces_all || update.first_line == 0 {
                Seq::<u8>::empty()
            } else {
                s1.gray
            };
            let start = if update.replaces_all || update.first_line == 0 { 0 } else { s1.lines };
            let lines = start + whole_lines(update.gray@.len(), update.width as nat);
            let wanted = capacity_for(lines);
            let capacity = if s1.capacity > 0 && wanted <= s1.capacity {
                s1.capacity
            } else {
                wanted
            };
            (StripState { width: s1.width, capacity, lines, gray: base + update.gray@ }, true)
        }
    }
}

/// The received chart: its line length, the columns the texture holds, the
/// lines decoded so far, and the picture itself, line-major.
#[derive(Debug)]
pub struct Strip {
    width: usize,
    capacity: usize,
    lines: usize,
    gray: Vec<u8>,
}

impl View for Strip {
    type V = StripState;

    closed spec fn view(&self) -> StripState {
        StripState {
            width: self.width as nat,
            capacity: self.capacity as nat,
            lines: self.lines as nat,
            gray: self.gray@,
        }
    }
}

impl Default for Strip {
    fn default() -> (strip: Self)
        ensures
            strip@.width == 0 && strip@.capacity == 0 && strip@.lines == 0 && strip@.gray.len() == 0,
    {
        Strip { width: 0, capacity: 0, lines: 0, gray: Vec::new() }
    }
}

/// Whether a strip is in a state its own operations leave it in: it never
/// counts more lines than it holds levels, and it holds a texture's worth of
/// columns once it holds any.
pub open spec fn strip_ok(s: StripState) -> bool {
    &&& s.lines <= s.gray.len()
    &&& s.capacity <= MAX_CAPACITY
    &&& s.capacity == 0 || s.capacity >= INITIAL_CAPACITY
}

impl Strip {
    #[verifier::type_invariant]
    spec fn inv(&self) -> bool {
        strip_ok(self@)
    }

    pub fn width(&self) -> (width: usize)
        ensures
            width == self@.width,
    {
        self.width
    }

    pub fn lines(&self) -> (lines: usize)
        ensures
            lines == self@.lines,
    {
        self.lines
    }

    /// The columns the texture holds; none before anything has been drawn.
    pub fn capacity(&self) -> (capacity: usize)
        ensures
            capacity == self@.capacity,
    {
        self.capacity
    }

    pub fn is_empty(&self) -> (empty: bool)
        ensures
            empty == (self@.lines == 0),
    {
        self.lines == 0
    }

    /// The picture, line-major, for saving it.
    pub fn gray(&self) -> (gray: &[u8])
        ensures
            gray@ == self@.gray,
    {
        self.gray.as_slice()
    }

    /// Forgets everything, so the next reception starts on an empty strip.
    pub fn clear(&mut self)
        ensures
            final(self)@.width == 0 && final(self)@.capacity == 0 && final(self)@.lines == 0
                && final(self)@.gray.len() == 0,
    {
        *self = Strip { width: 0, capacity: 0, lines: 0, gray: Vec::new() };
    }

    /// Takes the columns a worker published.
    ///
    /// Returns what the texture has to be told, or `None` when they were not
    /// adopted: a run that does not continue from where the last one ended
    /// says nothing usable. A new line length starts the strip over, and a
    /// run that replaces everything, or starts at the first line, redraws it.
    pub fn apply(&mut self, update: &StripUpdate) -> (refresh: Option<Refresh>)
        ensures
            final(self)@ == applied(old(self)@, *update).0,
            refresh is Some == applied(old(self)@, *update).1,
            refresh matches Some(r) ==> ({
                let before = if update.width as nat != old(self)@.width {
                    0
                } else {
                    old(self)@.capacity
                };
                let redraw = r.rebuilt || update.replaces_all || update.first_line == 0;
                let new = final(self)@;
                &&& r.rebuilt == (before == 0 || new.capacity > before)
                &&& r.end == new.lines
                &&& redraw ==> r.first == if new.lines > new.capacity {
                    new.lines - new.capacity
                } else {
                    0
                }
                &&& !redraw ==> r.first == if new.lines - new.capacity > old(self)@.lines {
                    new.lines - new.capacity
                } else {
                    old(self)@.lines as int
                }
            }),
    {
        proof {
            use_type_invariant(&*self);
        }
        if update.width == 0 {
            return None;
        }
        if update.width != self.width {
            *self = Strip { width: update.width, capacity: 0, lines: 0, gray: Vec::new() };
        }
        let restart = update.replaces_all || update.first_line == 0;
        if !restart && update.first_line != self.lines {
            return None;
        }
        let first = if restart {
            0
        } else {
            self.lines
        };
        self.lines = 0;
        let mut gray: Vec<u8> = Vec::new();
        std::mem::swap(&mut gray, &mut self.gray);
        if restart {
            gray.clear();
        }
        let ghost before_gray = gray@;
        gray.extend_from_slice(update.gray.as_slice());
        let added = update.lines();
        let total = gray.len();
        proof {
            assert(added <= update.gray@.len()) by (nonlinear_arith)
                requires
                    update.width > 0,
                    added == (update.gray@.len() as int) / (update.width as int),
            ;
            assert(gray@.len() == before_gray.len() + update.gray@.len());
            assert(first + added <= total);
        }
        let lines = first + added;
        let (rebuilt, capacity) = grown(self.capacity, lines);
        *self = Strip { width: self.width, capacity, lines, gray };
        let end = lines;
        let start = if rebuilt || restart {
            if end > capacity {
                end - capacity
            } else {
                0
            }
        } else if end >= capacity && end - capacity > first {
            end - capacity
        } else {
            first
        };
        Some(Refresh { rebuilt, first: start, end })
    }
}

/// The columns a texture needs for `lines`, given the `capacity` it has:
/// whether it has to be rebuilt, and its capacity after.
fn grown(capacity: usize, lines: usize) -> (grown: (bool, usize))
    requires
        capacity <= MAX_CAPACITY,
        capacity == 0 || capacity >= INITIAL_CAPACITY,
    ensures
        grown.0 == !(capacity > 0 && capacity_for(lines as nat) <= capacity),
        grown.0 ==> grown.1 == capacity_for(lines as nat),
        !grown.0 ==> grown.1 == capacity,
        grown.1 <= MAX_CAPACITY,
        grown.1 >= INITIAL_CAPACITY,
        grown.1 >= capacity,
{
    let mut wanted = INITIAL_CAPACITY;
    while wanted < lines && wanted < MAX_CAPACITY
        invariant
            wanted == 1024 || wanted == 2048 || wanted == 4096 || wanted == 8192,
            doubled_to(wanted as nat, lines as nat) == capacity_for(lines as nat),
        decreases MAX_CAPACITY - wanted,
    {
        wanted = wanted * 2;
    }
    if capacity > 0 && wanted <= capacity {
        return (false, capacity);
    }
    (true, wanted)
}

/// Where one run of columns goes in a texture that wraps.
#[derive(Clone, Copy, Debug, PartialEq, Eq, Structural)]
pub struct Upload {
    /// The column of the texture the run starts at.
    pub offset: usize,
    /// The line the run starts with.
    pub line: usize,
    /// How many lines the run holds.
    pub run: usize,
}

/// Splits columns `first..end` into runs a texture of `capacity` columns
/// takes, newest kept when there are more than it holds.
///
/// The columns wrap, so a run that crosses the end of the texture is written
/// as two.
pub fn upload_runs(first: usize, end: usize, capacity: usize) -> (runs: Vec<Upload>)
    requires
        capacity > 0,
    ensures
        ({
            let start = if end >= capacity && end - capacity > first {
                end - capacity
            } else {
                first as int
            };
            &&& forall|i: int|
                #![trigger runs@[i]]
                0 <= i < runs@.len() ==> runs@[i].run > 0 && runs@[i].offset == runs@[i].line
                    % capacity && runs@[i].offset + runs@[i].run <= capacity && runs@[i].run == if end
                    - runs@[i].line < capacity - runs@[i].offset {
                    end - runs@[i].line
                } else {
                    capacity - runs@[i].offset
                }
            &&& runs@.len() > 0 ==> runs@[0].line == start
            &&& forall|i: int|
                #![trigger runs@[i]]
                0 < i < runs@.len() ==> runs@[i].line == runs@[i - 1].line + runs@[i - 1].run
            &&& runs@.len() > 0 ==> runs@.last().line + runs@.last().run == end
            &&& runs@.len() == 0 ==> start >= end
        }),
{
    let mut line = if end >= capacity && end - capacity > first {
        end - capacity
    } else {
        first
    };
    let ghost start = line;
    let mut runs: Vec<Upload> = Vec::new();
    while line < end
        invariant
            capacity > 0,
            start <= line,
            start < end ==> line <= end,
            runs@.len() > 0 ==> start < end,
            runs@.len() == 0 ==> line == start,
            runs@.len() > 0 ==> runs@[0].line == start && runs@.last().line + runs@.last().run
                == line,
            forall|i: int|
                #![trigger runs@[i]]
                0 <= i < runs@.len() ==> runs@[i].run > 0 && runs@[i].offset == runs@[i].line
                    % capacity && runs@[i].offset + runs@[i].run <= capacity && runs@[i].run == if end
                    - runs@[i].line < capacity - runs@[i].offset {
                    end - runs@[i].line
                } else {
                    capacity - runs@[i].offset
                },
            forall|i: int|
                #![trigger runs@[i]]
                0 < i < runs@.len() ==> runs@[i].line == runs@[i - 1].line + runs@[i - 1].run,
        decreases end - line,
    {
        let offset = line % capacity;
        let room = capacity - offset;
        let run = if end - line < room {
            end - line
        } else {
            room
        };
        let ghost before = runs@;
        runs.push(Upload { offset, line, run });
        proof {
            assert forall|i: int| #![trigger runs@[i]] 0 <= i < runs@.len() - 1 implies runs@[i] == before[i] by {}
            assert forall|i: int| #![trigger runs@[i]] 0 < i < runs@.len() implies runs@[i].line
                == runs@[i - 1].line + runs@[i - 1].run by {
                if i < runs@.len() - 1 {
                    assert(runs@[i] == before[i]);
                    assert(runs@[i - 1] == before[i - 1]);
                } else {
                    assert(runs@[i - 1] == before.last());
                }
            }
        }
        line = line + run;
    }
    runs
}

/// The level at position `index` of a picture, black past its end.
pub open spec fn level_at(gray: Seq<u8>, index: int) -> u8 {
    if 0 <= index < gray.len() {
        gray[index]
    } else {
        0
    }
}

/// Turns `run` lines of a line-major picture a quarter turn anticlockwise.
///
/// The result is `width` rows of `run` columns: row `r` holds pixel
/// `width - 1 - r` of each line, so the start of each line is at the bottom
/// and time runs from left to right.
pub fn rotate(gray: &[u8], width: usize, first: usize, run: usize) -> (pixels: Vec<u8>)
    requires
        (first + run) * width <= usize::MAX,
    ensures
        pixels@.len() == run * width,
        forall|row: int, column: int|
            0 <= row < width && 0 <= column < run ==> #[trigger] pixels@[row * run + column]
                == level_at(gray@, (first + column) * width + (width - 1 - row)),
{
    let mut pixels: Vec<u8> = Vec::new();
    let mut row: usize = 0;
    while row < width
        invariant
            (first + run) * width <= usize::MAX,
            row <= width,
            pixels@.len() == row * run,
            forall|r: int, c: int|
                0 <= r < row && 0 <= c < run ==> #[trigger] pixels@[r * run + c] == level_at(
                    gray@,
                    (first + c) * width + (width - 1 - r),
                ),
        decreases width - row,
    {
        let pixel = width - 1 - row;
        proof {
            assert(first + run <= (first + run) * width) by (nonlinear_arith)
                requires
                    width >= 1,
            ;
        }
        let mut column: usize = 0;
        while column < run
            invariant
                (first + run) * width <= usize::MAX,
                first + run <= usize::MAX,
                row < width,
                pixel == width - 1 - row,
                column <= run,
                pixels@.len() == row * run + column,
                forall|r: int, c: int|
                    0 <= r < row && 0 <= c < run ==> #[trigger] pixels@[r * run + c] == level_at(
                        gray@,
                        (first + c) * width + (width - 1 - r),
                    ),
                forall|c: int|
                    0 <= c < column ==> #[trigger] pixels@[row * run + c] == level_at(
                        gray@,
                        (first + c) * width + pixel,
                    ),
            decreases run - column,
        {
            proof {
                assert((first + column) * width + pixel < (first + run) * width) by (nonlinear_arith)
                    requires
                        column < run,
                        pixel < width,
                ;
            }
            let index = (first + column) * width + pixel;
            let level = if index < gray.len() {
                gray[index]
            } else {
                0
            };
            let ghost before = pixels@;
            pixels.push(level);
            proof {
                assert(pixels@[row * run + column] == level);
                assert forall|r: int, c: int|
                    0 <= r < row && 0 <= c < run implies #[trigger] pixels@[r * run + c]
                    == level_at(gray@, (first + c) * width + (width - 1 - r)) by {
                    assert(r * run + c < row * run) by (nonlinear_arith)
                        requires
                            r < row,
                            c < run,
                            0 <= c,
                    ;
                    assert(pixels@[r * run + c] == before[r * run + c]);
                }
                assert forall|c: int| 0 <= c < column + 1 implies #[trigger] pixels@[row * run + c]
                    == level_at(gray@, (first + c) * width + pixel) by {
                    if c < column {
                        assert(pixels@[row * run + c] == before[row * run + c]);
                    }
                }
            }
            column += 1;
        }
        proof {
            assert((row + 1) * run == row * run + run) by (nonlinear_arith);
            assert forall|r: int, c: int|
                0 <= r < row + 1 && 0 <= c < run implies #[trigger] pixels@[r * run + c] == level_at(
                gray@,
                (first + c) * width + (width - 1 - r),
            ) by {
                if r == row {
                }
            }
        }
        row += 1;
    }
    pixels
}

} // verus!

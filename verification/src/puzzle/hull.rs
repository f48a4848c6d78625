//! A robot that paints the panels of a hull: a program is shown the colour of
//! the panel under the robot, and answers with the colour to paint it and with
//! the turn to take before the robot moves one panel on.

use vstd::prelude::*;
use crate::amplifier::run_error;
use crate::builder::{fresh_output, CPUBuilder};
use crate::cpu::CPU;
use crate::device::{Exhausted, InputModel, OutputModel, QueueInput, VecOutput};
use crate::fault::Fault;
use crate::instruction::Operation;
use crate::machine::{fetch, load, run_for, Snapshot};
use crate::puzzle::plane::{bounds_of, Bounds, PointMap};

verus! {

/// A panel of the hull. The robot starts at `(0, 0)`; north is `+y`.
#[derive(Debug, Clone, Copy, PartialEq, Eq, Hash, Structural)]
pub struct Point {
    pub x: i32,
    pub y: i32,
}

#[derive(Debug, Clone, Copy, PartialEq, Eq, Structural)]
pub enum Dir {
    N,
    E,
    S,
    W,
}

/// The robot: where it is, and which way it faces.
#[derive(Debug, Clone, Copy, PartialEq, Eq, Structural)]
pub struct Robot {
    pub pos: Point,
    pub dir: Dir,
}

/// Why the hull was not painted.
#[derive(Debug, Clone, Copy, PartialEq, Eq, Structural)]
pub enum HullError {
    /// The program faulted.
    Machine(Fault),
    /// The program output a value that is neither 0 nor 1.
    BadOutput,
    /// The robot was to leave the range of its coordinates.
    OutOfRange,
}

impl Point {
    /// Where the robot starts.
    pub fn origin() -> (p: Self)
        ensures
            p == (Point { x: 0, y: 0 }),
    {
        Point { x: 0, y: 0 }
    }

    /// The panel as a point of the plane.
    pub open spec fn place(self) -> (i64, i64) {
        (self.x as i64, self.y as i64)
    }
}

impl Dir {
    /// The direction a quarter turn to the right.
    pub open spec fn clockwise(self) -> Dir {
        match self {
            Dir::N => Dir::E,
            Dir::E => Dir::S,
            Dir::S => Dir::W,
            Dir::W => Dir::N,
        }
    }

    /// The direction a quarter turn to the left.
    pub open spec fn counterclockwise(self) -> Dir {
        match self {
            Dir::N => Dir::W,
            Dir::E => Dir::N,
            Dir::S => Dir::E,
            Dir::W => Dir::S,
        }
    }

    pub fn rotate_clockwise(self) -> (d: Self)
        ensures
            d == self.clockwise(),
    {
        match self {
            Dir::N => Dir::E,
            Dir::E => Dir::S,
            Dir::S => Dir::W,
            Dir::W => Dir::N,
        }
    }

    pub fn rotate_counterclockwise(self) -> (d: Self)
        ensures
            d == self.counterclockwise(),
    {
        match self {
            Dir::N => Dir::W,
            Dir::E => Dir::N,
            Dir::S => Dir::E,
            Dir::W => Dir::S,
        }
    }
}

/// A turn to the left undoes a turn to the right, and four turns lead back.
pub proof fn lemma_turns(d: Dir)
    ensures
        d.clockwise().counterclockwise() == d,
        d.counterclockwise().clockwise() == d,
        d.clockwise().clockwise().clockwise().clockwise() == d,
{
}

impl Robot {
    /// The panel one step ahead of the robot.
    pub open spec fn ahead(self) -> (int, int) {
        match self.dir {
            Dir::N => (self.pos.x as int, self.pos.y + 1),
            Dir::E => (self.pos.x + 1, self.pos.y as int),
            Dir::S => (self.pos.x as int, self.pos.y - 1),
            Dir::W => (self.pos.x - 1, self.pos.y as int),
        }
    }

    /// Whether the panel ahead has coordinates.
    pub open spec fn can_step(self) -> bool {
        i32::MIN <= self.ahead().0 <= i32::MAX && i32::MIN <= self.ahead().1 <= i32::MAX
    }

    /// The robot one step ahead.
    pub open spec fn stepped(self) -> Robot {
        Robot { pos: Point { x: self.ahead().0 as i32, y: self.ahead().1 as i32 }, dir: self.dir }
    }

    /// Starts at (0, 0), facing north.
    pub fn new() -> (robot: Self)
        ensures
            robot == (Robot { pos: Point { x: 0, y: 0 }, dir: Dir::N }),
    {
        Robot { pos: Point::origin(), dir: Dir::N }
    }

    /// Whether the panel ahead has coordinates.
    pub fn has_room(&self) -> (ok: bool)
        ensures
            ok == self.can_step(),
    {
        match self.dir {
            Dir::N => self.pos.y < i32::MAX,
            Dir::E => self.pos.x < i32::MAX,
            Dir::S => self.pos.y > i32::MIN,
            Dir::W => self.pos.x > i32::MIN,
        }
    }

    pub fn step_forward(&mut self)
        requires
            old(self).can_step(),
        ensures
            *final(self) == old(self).stepped(),
    {
        match self.dir {
            Dir::N => {
                self.pos.y = self.pos.y + 1;
            },
            Dir::E => {
                self.pos.x = self.pos.x + 1;
            },
            Dir::S => {
                self.pos.y = self.pos.y - 1;
            },
            Dir::W => {
                self.pos.x = self.pos.x - 1;
            },
        }
    }

    pub fn turn_left(&mut self)
        ensures
            *final(self) == (Robot { dir: old(self).dir.counterclockwise(), ..*old(self) }),
    {
        self.dir = self.dir.rotate_counterclockwise();
    }

    pub fn turn_right(&mut self)
        ensures
            *final(self) == (Robot { dir: old(self).dir.clockwise(), ..*old(self) }),
    {
        self.dir = self.dir.rotate_clockwise();
    }
}

/// The robot at work, as the specifications see it.
pub struct Painter {
    pub robot: Robot,
    /// The colour of each panel that was painted: 0 is black, 1 is white.
    pub panels: Map<(i64, i64), i64>,
    /// Whether the next output of the program is a colour, and not a turn.
    pub painting: bool,
}

/// The painter after the program has output `x`: a colour paints the panel
/// under the robot; a turn, 0 to the left and 1 to the right, turns the robot,
/// which then moves one panel on.
pub open spec fn heard(s: Painter, x: i64) -> Result<Painter, HullError> {
    if x != 0 && x != 1 {
        Err(HullError::BadOutput)
    } else if s.painting {
        Ok(Painter { panels: s.panels.insert(s.robot.pos.place(), x), painting: false, ..s })
    } else {
        let turned = Robot {
            dir: if x == 0 {
                s.robot.dir.counterclockwise()
            } else {
                s.robot.dir.clockwise()
            },
            ..s.robot
        };
        if turned.can_step() {
            Ok(Painter { robot: turned.stepped(), painting: true, ..s })
        } else {
            Err(HullError::OutOfRange)
        }
    }
}

/// The painter after the program has output `outputs`, one after the other.
pub open spec fn heard_all(s: Painter, outputs: Seq<i64>) -> Result<Painter, HullError>
    decreases outputs.len(),
{
    if outputs.len() == 0 {
        Ok(s)
    } else {
        match heard_all(s, outputs.drop_last()) {
            Err(error) => Err(error),
            Ok(t) => heard(t, outputs.last()),
        }
    }
}

/// The colour that the robot sees: that of the panel under it, which is black
/// where it was never painted.
pub open spec fn seen(s: Painter) -> i64 {
    if s.panels.contains_key(s.robot.pos.place()) {
        s.panels[s.robot.pos.place()]
    } else {
        0
    }
}

/// Whether the computer is at a halt instruction.
pub open spec fn halted(cpu: Snapshot) -> bool {
    fetch(cpu) matches Ok(instr) && instr.op == Operation::Halt
}

/// The computer after it was shown `colour`, with its output taken away.
pub open spec fn shown(cpu: Snapshot, colour: i64) -> Snapshot {
    Snapshot {
        input: InputModel { pending: cpu.input.pending.push(colour), at_end: cpu.input.at_end },
        output: OutputModel { sent: Seq::empty(), room: cpu.output.room },
        ..cpu
    }
}

/// The panels that are painted when the program has halted, where it does so
/// within `rounds` rounds. In each round the program runs until it halts or
/// asks for the colour that the robot sees; what it has output by then is done
/// first.
pub open spec fn painted(cpu: Snapshot, s: Painter, rounds: nat) -> Result<
    Map<(i64, i64), i64>,
    HullError,
>
    decreases rounds,
{
    if rounds == 0 {
        Err(HullError::Machine(Fault::StepLimit))
    } else {
        let (ran, r) = run_for(cpu, u64::MAX as nat);
        match run_error(r) {
            Some(fault) => Err(HullError::Machine(fault)),
            None => match heard_all(s, ran.output.sent) {
                Err(error) => Err(error),
                Ok(t) => if halted(ran) {
                    Ok(t.panels)
                } else {
                    painted(shown(ran, seen(t)), t, (rounds - 1) as nat)
                },
            },
        }
    }
}

/// The computer and the painter at the start, on a hull which is black but for
/// the panel under the robot, which has the colour `origin_color`.
pub open spec fn start(mem: Seq<i64>) -> Snapshot {
    load(mem, InputModel { pending: Seq::empty(), at_end: Exhausted::Halt }, fresh_output())
}

pub open spec fn first(origin_color: i64) -> Painter {
    Painter {
        robot: Robot { pos: Point { x: 0, y: 0 }, dir: Dir::N },
        panels: Map::<(i64, i64), i64>::empty().insert((0i64, 0i64), origin_color),
        painting: true,
    }
}

/// Lets the robot paint the hull as the program in `mem` tells it, and returns
/// the colour of each panel that was painted.
pub fn paint_hull(mem: Vec<i64>, origin_color: i64) -> (r: Result<PointMap<i64>, HullError>)
    requires
        origin_color == 0 || origin_color == 1,
    ensures
        match r {
            Ok(map) => map.wf() && painted(start(mem@), first(origin_color), u64::MAX as nat)
                == Ok::<Map<(i64, i64), i64>, HullError>(map@),
            Err(error) => painted(start(mem@), first(origin_color), u64::MAX as nat) == Err::<
                Map<(i64, i64), i64>,
                HullError,
            >(error),
        },
{
    // The painted grid the robot moves around on.
    let mut map: PointMap<i64> = PointMap::new();
    map.insert((0, 0), origin_color);
    let mut rob: Robot = Robot::new();
    let mut painting: bool = true;
    let builder: CPUBuilder<QueueInput, ()> = CPUBuilder::new(mem);
    let mut cpu: CPU<QueueInput, VecOutput> = builder.input_or_halt(
        QueueInput::halting(Vec::new()),
    ).output_vec().finish();
    let ghost goal = painted(start(mem@), first(origin_color), u64::MAX as nat);
    let mut rounds: u64 = u64::MAX;
    while rounds > 0
        invariant
            map.wf(),
            goal == painted(start(mem@), first(origin_color), u64::MAX as nat),
            goal == painted(cpu@, Painter { robot: rob, panels: map@, painting }, rounds as nat),
        decreases rounds,
    {
        let ghost before = Painter { robot: rob, panels: map@, painting };
        match cpu.run_internal() {
            Ok(false) => {},
            Ok(true) => {
                return Err(HullError::Machine(Fault::StepLimit));
            },
            Err(fault) => {
                return Err(HullError::Machine(fault));
            },
        }
        let ghost ran = cpu@;
        let halted: bool = cpu.at_halt();
        let outputs: Vec<i64> = cpu.drain_output();
        let mut k: usize = 0;
        assert(outputs@.take(0) =~= Seq::<i64>::empty());
        while k < outputs.len()
            invariant
                k <= outputs@.len(),
                map.wf(),
                rounds > 0,
                goal == painted(start(mem@), first(origin_color), u64::MAX as nat),
                goal == match heard_all(before, outputs@) {
                    Err(error) => Err::<Map<(i64, i64), i64>, HullError>(error),
                    Ok(t) => if halted {
                        Ok(t.panels)
                    } else {
                        painted(shown(ran, seen(t)), t, (rounds - 1) as nat)
                    },
                },
                heard_all(before, outputs@.take(k as int)) == Ok::<Painter, HullError>(
                    Painter { robot: rob, panels: map@, painting },
                ),
            decreases outputs@.len() - k,
        {
            let x: i64 = outputs[k];
            proof {
                assert(outputs@.take(k + 1).drop_last() =~= outputs@.take(k as int));
                lemma_heard_all_fails(before, outputs@, k as int + 1);
            }
            if x != 0 && x != 1 {
                return Err(HullError::BadOutput);
            }
            if painting {
                // Paint a tile.
                map.insert((rob.pos.x as i64, rob.pos.y as i64), x);
                painting = false;
            } else {
                if x == 0 {
                    rob.turn_left();
                } else {
                    rob.turn_right();
                }
                if !rob.has_room() {
                    return Err(HullError::OutOfRange);
                }
                rob.step_forward();
                painting = true;
            }
            k = k + 1;
        }
        assert(outputs@.take(outputs@.len() as int) =~= outputs@);
        if halted {
            return Ok(map);
        }
        // Black by default.
        let colour: i64 = match map.get((rob.pos.x as i64, rob.pos.y as i64)) {
            Some(colour) => *colour,
            None => 0,
        };
        cpu.feed(colour);
        rounds = rounds - 1;
    }
    Err(HullError::Machine(Fault::StepLimit))
}

/// An error among the first `n` outputs is the error of all outputs.
proof fn lemma_heard_all_fails(s: Painter, outputs: Seq<i64>, n: int)
    requires
        0 <= n <= outputs.len(),
    ensures
        heard_all(s, outputs.take(n)) is Err ==> heard_all(s, outputs) == heard_all(
            s,
            outputs.take(n),
        ),
    decreases outputs.len() - n,
{
    if n < outputs.len() {
        assert(outputs.take(n + 1).drop_last() =~= outputs.take(n));
        lemma_heard_all_fails(s, outputs, n + 1);
    } else {
        assert(outputs.take(n) =~= outputs);
    }
}

/// How many panels does the robot paint at least once on a hull that is all
/// black?
pub fn num_squares_painted(mem: Vec<i64>) -> (r: Result<usize, HullError>)
    ensures
        match r {
            Ok(n) => painted(start(mem@), first(0), u64::MAX as nat) matches Ok(map)
                && map.dom().finite() && n == map.dom().len(),
            Err(error) => painted(start(mem@), first(0), u64::MAX as nat) == Err::<
                Map<(i64, i64), i64>,
                HullError,
            >(error),
        },
{
    let map: PointMap<i64> = paint_hull(mem, 0)?;
    let n: usize = map.len();
    proof {
        map.points().unique_seq_to_set();
        assert(map@.dom() =~= map.points().to_set());
    }
    Ok(n)
}

/// The character that shows the panel at `p`: `#` where it is white, and a
/// blank where it is black or was never painted.
pub open spec fn glyph(panels: Map<(i64, i64), i64>, p: (i64, i64)) -> char {
    if panels.contains_key(p) && panels[p] == 1 {
        '#'
    } else {
        ' '
    }
}

/// Draws the panels of the least rectangle that holds all that were painted:
/// its rows from the top, which is the greatest `y`, to the bottom, each from
/// the left to the right. None where no panel was painted.
pub fn render(map: &PointMap<i64>) -> (r: Option<Vec<Vec<char>>>)
    requires
        map.wf(),
    ensures
        match r {
            Some(rows) => exists|b: Bounds|
                {
                    &&& #[trigger] bounds_of(map.points(), map.points().len() as int, b)
                    &&& rows@.len() == b.max_y - b.min_y + 1
                    &&& forall|i: int|
                        0 <= i < rows@.len() ==> (#[trigger] rows@[i])@.len() == b.max_x - b.min_x
                            + 1
                    &&& forall|i: int, j: int|
                        0 <= i < rows@.len() && 0 <= j < rows@[i]@.len() ==> #[trigger] rows@[i]@[j]
                            == glyph(map@, ((b.min_x + j) as i64, (b.max_y - i) as i64))
                },
            None => map.points().len() == 0,
        },
{
    let b: Bounds = match map.bounds() {
        Some(b) => b,
        None => {
            return None;
        },
    };
    proof {
        let i = choose|i: int| 0 <= i < map.points().len() && (#[trigger] map.points()[i]).0 == b.min_x;
        assert(b.min_x <= map.points()[i].0 <= b.max_x);
        assert(b.min_y <= map.points()[i].1 <= b.max_y);
    }
    let mut rows: Vec<Vec<char>> = Vec::new();
    let mut y: i64 = b.max_y;
    loop
        invariant_except_break
            rows@.len() == b.max_y - y,
            forall|i: int| 0 <= i < rows@.len() ==> (#[trigger] rows@[i])@.len() == b.max_x - b.min_x + 1,
            forall|i: int, j: int|
                0 <= i < rows@.len() && 0 <= j < rows@[i]@.len() ==> #[trigger] rows@[i]@[j] == glyph(
                    map@,
                    ((b.min_x + j) as i64, (b.max_y - i) as i64),
                ),
        invariant
            map.wf(),
            b.min_x <= b.max_x,
            b.min_y <= y <= b.max_y,
        ensures
            rows@.len() == b.max_y - b.min_y + 1,
            forall|i: int| 0 <= i < rows@.len() ==> (#[trigger] rows@[i])@.len() == b.max_x - b.min_x + 1,
            forall|i: int, j: int|
                0 <= i < rows@.len() && 0 <= j < rows@[i]@.len() ==> #[trigger] rows@[i]@[j] == glyph(
                    map@,
                    ((b.min_x + j) as i64, (b.max_y - i) as i64),
                ),
        decreases y - b.min_y,
    {
        let mut row: Vec<char> = Vec::new();
        let mut x: i64 = b.min_x;
        loop
            invariant_except_break
                row@.len() == x - b.min_x,
                forall|j: int|
                    0 <= j < row@.len() ==> #[trigger] row@[j] == glyph(map@, ((b.min_x + j) as i64, y)),
            invariant
                map.wf(),
                b.min_x <= x <= b.max_x,
            ensures
                row@.len() == b.max_x - b.min_x + 1,
                forall|j: int|
                    0 <= j < row@.len() ==> #[trigger] row@[j] == glyph(map@, ((b.min_x + j) as i64, y)),
            decreases b.max_x - x,
        {
            let white: bool = match map.get((x, y)) {
                Some(colour) => *colour == 1,
                None => false,
            };
            row.push(if white {
                '#'
            } else {
                ' '
            });
            if x == b.max_x {
                break ;
            }
            x = x + 1;
        }
        let ghost before = rows@;
        let ghost last = row;
        rows.push(row);
        proof {
            assert(rows@[before.len() as int] == last);
            assert forall|i: int| 0 <= i < rows@.len() implies (#[trigger] rows@[i])@.len() == b.max_x
                - b.min_x + 1 by {
                if i < before.len() {
                    assert(rows@[i] == before[i]);
                }
            }
            assert forall|i: int, j: int|
                0 <= i < rows@.len() && 0 <= j < rows@[i]@.len() implies #[trigger] rows@[i]@[j]
                == glyph(map@, ((b.min_x + j) as i64, (b.max_y - i) as i64)) by {
                if i < before.len() {
                    assert(rows@[i] == before[i]);
                }
            }
        }
        if y == b.min_y {
            break ;
        }
        y = y - 1;
    }
    Some(rows)
}

} // verus!

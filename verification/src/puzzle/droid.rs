//! A repair droid that a program steers through an unknown area: the program
//! takes a direction as input and outputs what the droid found there.

use vstd::prelude::*;
use crate::builder::{fresh_output, CPUBuilder};
use crate::cpu::CPU;
use crate::device::{Exhausted, InputModel, QueueInput, VecOutput};
use crate::fault::Fault;
use crate::machine::{load, run_for, Snapshot};
use crate::puzzle::plane::PointMap;

verus! {

/// A place, as `(x, y)`. The droid starts at `(0, 0)`; north is `+y` and east is
/// `+x`.
pub type Point = (i32, i32);

/// What a place holds.
#[derive(Debug, Clone, Copy, PartialEq, Eq, Structural)]
pub enum Tile {
    Wall,
    Floor,
    /// The place of the oxygen system.
    Target,
}

#[derive(Debug, Clone, Copy, PartialEq, Eq, Structural)]
pub enum Dir {
    N,
    E,
    S,
    W,
}

/// Why the droid did not report.
#[derive(Debug, Clone, Copy, PartialEq, Eq, Structural)]
pub enum DroidError {
    /// The program faulted.
    Machine(Fault),
    /// The program answered a movement with no value, with more than one, or
    /// with a value that stands for no tile.
    NoReport,
    /// The droid found the oxygen system a second time.
    TwoTargets,
    /// The droid has seen all that it can reach, and no oxygen system.
    NoTarget,
    /// The droid was to leave the range of its coordinates.
    OutOfRange,
    /// The way that the droid has gone is longer than it can remember.
    TooDeep,
}

impl Tile {
    /// The tile that the program's output `value` stands for.
    pub open spec fn of_report(value: i64) -> Option<Tile> {
        if value == 0 {
            Some(Tile::Wall)
        } else if value == 1 {
            Some(Tile::Floor)
        } else if value == 2 {
            Some(Tile::Target)
        } else {
            None
        }
    }
}

impl Dir {
    /// The direction that points the other way.
    pub open spec fn spec_opposite(self) -> Dir {
        match self {
            Dir::N => Dir::S,
            Dir::S => Dir::N,
            Dir::E => Dir::W,
            Dir::W => Dir::E,
        }
    }

    /// The place one step from `p` in direction `d`.
    pub open spec fn spec_step(p: Point, d: Dir) -> (int, int) {
        match d {
            Dir::N => (p.0 as int, p.1 + 1),
            Dir::E => (p.0 + 1, p.1 as int),
            Dir::S => (p.0 as int, p.1 - 1),
            Dir::W => (p.0 - 1, p.1 as int),
        }
    }

    /// The number that tells the program to move in this direction.
    pub open spec fn command(self) -> i64 {
        match self {
            Dir::N => 1,
            Dir::S => 2,
            Dir::W => 3,
            Dir::E => 4,
        }
    }

    /// Whether the droid can take a step from `p` in every direction: none of
    /// its coordinates is at an end of their range.
    pub open spec fn inside(p: Point) -> bool {
        i32::MIN < p.0 < i32::MAX && i32::MIN < p.1 < i32::MAX
    }

    /// Negates this direction.
    pub fn opposite(self) -> (d: Self)
        ensures
            d == self.spec_opposite(),
    {
        match self {
            Dir::N => Dir::S,
            Dir::S => Dir::N,
            Dir::E => Dir::W,
            Dir::W => Dir::E,
        }
    }

    /// Takes one step from `p` in direction `d`.
    pub fn step(p: Point, d: Dir) -> (q: Point)
        requires
            Dir::inside(p),
        ensures
            (q.0 as int, q.1 as int) == Dir::spec_step(p, d),
    {
        let (x, y) = p;
        match d {
            Dir::N => (x, y + 1),
            Dir::E => (x + 1, y),
            Dir::S => (x, y - 1),
            Dir::W => (x - 1, y),
        }
    }
}

/// Going there and back again leads nowhere, and the opposite of the opposite
/// is the direction itself.
pub proof fn lemma_opposite(p: Point, d: Dir)
    ensures
        d.spec_opposite().spec_opposite() == d,
        d.spec_opposite() != d,
        ({
            let q = Dir::spec_step(p, d);
            i32::MIN <= q.0 <= i32::MAX && i32::MIN <= q.1 <= i32::MAX ==> Dir::spec_step(
                (q.0 as i32, q.1 as i32),
                d.spec_opposite(),
            ) == (p.0 as int, p.1 as int)
        }),
{
}

/// The four directions, clockwise from north.
pub fn nesw() -> (dirs: [Dir; 4])
    ensures
        dirs@ == seq![Dir::N, Dir::E, Dir::S, Dir::W],
{
    let dirs: [Dir; 4] = [Dir::N, Dir::E, Dir::S, Dir::W];
    assert(dirs@ =~= seq![Dir::N, Dir::E, Dir::S, Dir::W]);
    dirs
}

/// The droid, as the specifications see it.
pub struct DroidView {
    /// Where the droid is.
    pub pos: Point,
    /// What the droid stands on.
    pub tile: Tile,
    /// The computer that runs the droid's program.
    pub cpu: Snapshot,
}

/// The droid.
pub struct Robot {
    /// Where is the droid currently?
    pub pos: Point,
    /// What is the droid currently standing on?
    pub tile: Tile,
    /// The computer that runs the droid's program. It waits for a movement
    /// command whenever the droid is asked for nothing.
    cpu: CPU<QueueInput, VecOutput>,
}

impl View for Robot {
    type V = DroidView;

    closed spec fn view(&self) -> DroidView {
        DroidView { pos: self.pos, tile: self.tile, cpu: self.cpu@ }
    }
}

/// The droid's computer at its start: about to run the program, with no command
/// waiting.
pub open spec fn start(mem: Seq<i64>) -> Snapshot {
    load(mem, InputModel { pending: Seq::empty(), at_end: Exhausted::Halt }, fresh_output())
}

/// What the program answers to the command to move in direction `d`: its
/// computer afterwards, when it waits for the next command or has halted, and the
/// tile that it has reported in between.
pub open spec fn sensed(cpu: Snapshot, d: Dir) -> Result<(Snapshot, Tile), DroidError> {
    let commanded = Snapshot {
        input: InputModel { pending: cpu.input.pending.push(d.command()), at_end: cpu.input.at_end },
        ..cpu
    };
    let (ran, r) = run_for(commanded, u64::MAX as nat);
    let heard = Snapshot {
        output: crate::device::OutputModel { sent: Seq::empty(), room: ran.output.room },
        ..ran
    };
    match r {
        Err(fault) => Err(DroidError::Machine(fault)),
        Ok(true) => Err(DroidError::Machine(Fault::StepLimit)),
        Ok(false) => if ran.output.sent.len() == 1 {
            match Tile::of_report(ran.output.sent[0]) {
                Some(tile) => Ok((heard, tile)),
                None => Err(DroidError::NoReport),
            }
        } else {
            Err(DroidError::NoReport)
        },
    }
}

impl Robot {
    /// A new droid at the origin, standing on the floor, with the program in
    /// `mem` loaded.
    pub fn new(mem: Vec<i64>) -> (robot: Self)
        ensures
            robot@ == (DroidView { pos: (0i32, 0i32), tile: Tile::Floor, cpu: start(mem@) }),
    {
        Robot { pos: (0, 0), tile: Tile::Floor, cpu: Self::spawn_cpu(mem) }
    }

    /// Starts the computer. It halts whenever no command waits for it, and goes
    /// on with the next one.
    fn spawn_cpu(mem: Vec<i64>) -> (cpu: CPU<QueueInput, VecOutput>)
        ensures
            cpu@ == start(mem@),
    {
        let builder: CPUBuilder<QueueInput, ()> = CPUBuilder::new(mem);
        builder.input_or_halt(QueueInput::halting(Vec::new())).output_vec().finish()
    }

    /// Tries to move onto the adjacent tile in direction `d`. Returns whether
    /// the droid has moved.
    ///
    /// The droid only fails to move where the tile is a wall. After an error
    /// the droid is where it was, and its computer is in no known state.
    pub fn move_(&mut self, d: Dir) -> (r: Result<bool, DroidError>)
        requires
            Dir::inside(old(self)@.pos),
        ensures
            match r {
                Ok(moved) => sensed(old(self)@.cpu, d) matches Ok((cpu, tile)) && {
                    &&& moved == (tile != Tile::Wall)
                    &&& final(self)@.cpu == cpu
                    &&& moved ==> final(self)@.tile == tile && (
                    final(self)@.pos.0 as int,
                    final(self)@.pos.1 as int,
                    ) == Dir::spec_step(old(self)@.pos, d)
                    &&& !moved ==> final(self)@.tile == old(self)@.tile && final(self)@.pos == old(
                        self,
                    )@.pos
                },
                Err(error) => sensed(old(self)@.cpu, d) == Err::<(Snapshot, Tile), DroidError>(
                    error,
                ) && final(self)@.pos == old(self)@.pos && final(self)@.tile == old(self)@.tile,
            },
    {
        let command: i64 = match d {
            // Note the unconventional encoding.
            Dir::N => 1,
            Dir::S => 2,
            Dir::W => 3,
            Dir::E => 4,
        };
        self.cpu.feed(command);
        match self.cpu.run_internal() {
            Ok(false) => {},
            Ok(true) => {
                return Err(DroidError::Machine(Fault::StepLimit));
            },
            Err(fault) => {
                return Err(DroidError::Machine(fault));
            },
        }
        let report: Vec<i64> = self.cpu.drain_output();
        if report.len() != 1 {
            return Err(DroidError::NoReport);
        }
        let tile: Tile = match report[0] {
            0 => Tile::Wall,
            1 => Tile::Floor,
            2 => Tile::Target,
            _ => {
                return Err(DroidError::NoReport);
            },
        };
        match tile {
            Tile::Wall => Ok(false),
            tile => {
                self.pos = Dir::step(self.pos, d);
                self.tile = tile;
                Ok(true)
            },
        }
    }
}

/// The place `p` as a point of the plane.
pub open spec fn place(p: Point) -> (i64, i64) {
    (p.0 as i64, p.1 as i64)
}

/// The droid after it was told to move in direction `d`, and whether it has
/// moved. It has not where it has found a wall.
pub open spec fn moved(v: DroidView, d: Dir) -> Result<(DroidView, bool), DroidError> {
    match sensed(v.cpu, d) {
        Err(error) => Err(error),
        Ok((cpu, tile)) => if tile == Tile::Wall {
            Ok((DroidView { cpu, ..v }, false))
        } else {
            Ok(
                (
                    DroidView {
                        pos: (Dir::spec_step(v.pos, d).0 as i32, Dir::spec_step(v.pos, d).1 as i32),
                        tile,
                        cpu,
                    },
                    true,
                ),
            )
        },
    }
}

/// What the droid knows of the area.
pub struct Survey {
    pub droid: DroidView,
    /// The tile of each place that the droid has seen.
    pub grid: Map<(i64, i64), Tile>,
    /// The place of the oxygen system, once the droid has found it.
    pub target: Option<Point>,
}

/// The direction that is tried as the `k`-th, counted from 0: north, east,
/// south, west.
pub open spec fn dir_at(k: int) -> Dir {
    if k <= 0 {
        Dir::N
    } else if k == 1 {
        Dir::E
    } else if k == 2 {
        Dir::S
    } else {
        Dir::W
    }
}

/// What the droid knows after it has explored the area from where it stands: it
/// notes the tile under it, then looks in each direction, and is back where it
/// stood. It can go no more than `depth` steps away.
pub open spec fn explored(s: Survey, depth: nat) -> Result<Survey, DroidError>
    decreases depth, 10int,
{
    if s.droid.tile == Tile::Target && s.target is Some {
        Err(DroidError::TwoTargets)
    } else {
        swept(
            Survey {
                grid: s.grid.insert(place(s.droid.pos), s.droid.tile),
                target: if s.droid.tile == Tile::Target {
                    Some(s.droid.pos)
                } else {
                    s.target
                },
                ..s
            },
            0,
            depth,
        )
    }
}

/// What the droid knows after it has looked in the directions from the `k`-th
/// on.
pub open spec fn swept(s: Survey, k: int, depth: nat) -> Result<Survey, DroidError>
    decreases depth, 5 - k,
{
    if k < 0 || k >= 4 {
        Ok(s)
    } else {
        match looked(s, dir_at(k), depth) {
            Err(error) => Err(error),
            Ok(t) => swept(t, k + 1, depth),
        }
    }
}

/// What the droid knows after it has looked in the direction `d`. Where the
/// place there is not known, the droid tries to move there: a wall is noted; from
/// any other place the droid explores on, and moves back after that.
pub open spec fn looked(s: Survey, d: Dir, depth: nat) -> Result<Survey, DroidError>
    decreases depth, 0int,
{
    let there = Dir::spec_step(s.droid.pos, d);
    if !Dir::inside(s.droid.pos) {
        Err(DroidError::OutOfRange)
    } else if s.grid.contains_key((there.0 as i64, there.1 as i64)) {
        Ok(s)
    } else {
        match moved(s.droid, d) {
            Err(error) => Err(error),
            Ok((droid, false)) => Ok(
                Survey {
                    droid,
                    grid: s.grid.insert((there.0 as i64, there.1 as i64), Tile::Wall),
                    ..s
                },
            ),
            Ok((droid, true)) => if depth == 0 {
                Err(DroidError::TooDeep)
            } else {
                match explored(Survey { droid, ..s }, (depth - 1) as nat) {
                    Err(error) => Err(error),
                    Ok(t) => if !Dir::inside(t.droid.pos) {
                        Err(DroidError::OutOfRange)
                    } else {
                        match moved(t.droid, d.spec_opposite()) {
                            Err(error) => Err(error),
                            Ok((back, _)) => Ok(Survey { droid: back, ..t }),
                        }
                    },
                }
            },
        }
    }
}

/// Whether none of the coordinates of `p` is at an end of their range.
fn is_inside(p: Point) -> (ok: bool)
    ensures
        ok == Dir::inside(p),
{
    i32::MIN < p.0 && p.0 < i32::MAX && i32::MIN < p.1 && p.1 < i32::MAX
}

/// Looks in the direction `dir`: explores what lies there, where it is not
/// known yet.
fn look(
    robot: &mut Robot,
    grid: &mut PointMap<Tile>,
    target: &mut Option<Point>,
    dir: Dir,
    depth: u64,
) -> (r: Result<(), DroidError>)
    requires
        old(grid).wf(),
    ensures
        final(grid).wf(),
        match r {
            Ok(()) => looked(
                Survey { droid: old(robot)@, grid: old(grid)@, target: *old(target) },
                dir,
                depth as nat,
            ) == Ok::<Survey, DroidError>(
                Survey { droid: final(robot)@, grid: final(grid)@, target: *final(target) },
            ),
            Err(error) => looked(
                Survey { droid: old(robot)@, grid: old(grid)@, target: *old(target) },
                dir,
                depth as nat,
            ) == Err::<Survey, DroidError>(error),
        },
    decreases depth, 0int,
{
    if !is_inside(robot.pos) {
        return Err(DroidError::OutOfRange);
    }
    let new_pos: Point = Dir::step(robot.pos, dir);
    if grid.contains_key((new_pos.0 as i64, new_pos.1 as i64)) {
        return Ok(());
    }
    let moved: bool = match robot.move_(dir) {
        Ok(moved) => moved,
        Err(error) => {
            return Err(error);
        },
    };
    if !moved {
        // Can't move onto walls. Record this wall as explored, but don't recurse.
        grid.insert((new_pos.0 as i64, new_pos.1 as i64), Tile::Wall);
        return Ok(());
    }
    if depth == 0 {
        return Err(DroidError::TooDeep);
    }
    match dfs(robot, grid, target, depth - 1) {
        Ok(()) => {},
        Err(error) => {
            return Err(error);
        },
    }
    // Move back after visiting that part of the map!
    if !is_inside(robot.pos) {
        return Err(DroidError::OutOfRange);
    }
    match robot.move_(dir.opposite()) {
        Ok(_) => Ok(()),
        Err(error) => Err(error),
    }
}

/// Explores the tile that the droid stands on, and all that can be reached
/// from it over places that are not known yet. Afterwards the droid is back
/// where it stood.
fn dfs(robot: &mut Robot, grid: &mut PointMap<Tile>, target: &mut Option<Point>, depth: u64) -> (r:
    Result<(), DroidError>)
    requires
        old(grid).wf(),
    ensures
        final(grid).wf(),
        match r {
            Ok(()) => explored(
                Survey { droid: old(robot)@, grid: old(grid)@, target: *old(target) },
                depth as nat,
            ) == Ok::<Survey, DroidError>(
                Survey { droid: final(robot)@, grid: final(grid)@, target: *final(target) },
            ),
            Err(error) => explored(
                Survey { droid: old(robot)@, grid: old(grid)@, target: *old(target) },
                depth as nat,
            ) == Err::<Survey, DroidError>(error),
        },
    decreases depth, 10int,
{
    let ghost goal = explored(
        Survey { droid: robot@, grid: grid@, target: *target },
        depth as nat,
    );
    grid.insert((robot.pos.0 as i64, robot.pos.1 as i64), robot.tile);
    if robot.tile == Tile::Target {
        if target.is_some() {
            return Err(DroidError::TwoTargets);
        }
        *target = Some(robot.pos);
    }
    let dirs: [Dir; 4] = nesw();
    let mut k: usize = 0;
    while k < 4
        invariant
            k <= 4,
            grid.wf(),
            dirs@ == seq![Dir::N, Dir::E, Dir::S, Dir::W],
            goal == explored(
                Survey { droid: old(robot)@, grid: old(grid)@, target: *old(target) },
                depth as nat,
            ),
            goal == swept(
                Survey { droid: robot@, grid: grid@, target: *target },
                k as int,
                depth as nat,
            ),
        decreases 4 - k,
    {
        let dir: Dir = dirs[k];
        assert(dir == dir_at(k as int));
        match look(robot, grid, target, dir, depth) {
            Ok(()) => {},
            Err(error) => {
                return Err(error);
            },
        }
        k = k + 1;
    }
    Ok(())
}

/// The droid at its start, which knows nothing of the area.
pub open spec fn at_start(mem: Seq<i64>) -> Survey {
    Survey {
        droid: DroidView { pos: (0i32, 0i32), tile: Tile::Floor, cpu: start(mem) },
        grid: Map::empty(),
        target: None,
    }
}

/// What the droid has mapped when it has explored all that it can reach
/// within `depth` steps, and where the oxygen system is.
pub open spec fn mapped(mem: Seq<i64>, depth: nat) -> Result<
    (Map<(i64, i64), Tile>, Point),
    DroidError,
> {
    match explored(at_start(mem), depth) {
        Err(error) => Err(error),
        Ok(survey) => match survey.target {
            Some(target) => Ok((survey.grid, target)),
            None => Err(DroidError::NoTarget),
        },
    }
}

/// Maps the whole area with the droid, which searches depth first. There must
/// be exactly one oxygen system within reach. Returns the map and the place of
/// the oxygen system.
pub fn explore_grid(mem: Vec<i64>) -> (r: Result<(PointMap<Tile>, Point), DroidError>)
    ensures
        match r {
            Ok((grid, target)) => grid.wf() && mapped(mem@, u64::MAX as nat) == Ok::<
                (Map<(i64, i64), Tile>, Point),
                DroidError,
            >((grid@, target)),
            Err(error) => mapped(mem@, u64::MAX as nat) == Err::<
                (Map<(i64, i64), Tile>, Point),
                DroidError,
            >(error),
        },
{
    explore_within(mem, u64::MAX)
}

/// Maps the area as `explore_grid` does, with a droid that goes no more than
/// `depth` steps away from where it starts.
pub fn explore_within(mem: Vec<i64>, depth: u64) -> (r: Result<(PointMap<Tile>, Point), DroidError>)
    ensures
        match r {
            Ok((grid, target)) => grid.wf() && mapped(mem@, depth as nat) == Ok::<
                (Map<(i64, i64), Tile>, Point),
                DroidError,
            >((grid@, target)),
            Err(error) => mapped(mem@, depth as nat) == Err::<
                (Map<(i64, i64), Tile>, Point),
                DroidError,
            >(error),
        },
{
    let mut robot: Robot = Robot::new(mem);
    let mut grid: PointMap<Tile> = PointMap::new();
    let mut target: Option<Point> = None;
    match dfs(&mut robot, &mut grid, &mut target, depth) {
        Ok(()) => {},
        Err(error) => {
            return Err(error);
        },
    }
    match target {
        Some(target) => Ok((grid, target)),
        None => Err(DroidError::NoTarget),
    }
}

} // verus!

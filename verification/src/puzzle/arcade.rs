//! An arcade cabinet: a program draws tiles on a screen, three output values
//! for each tile, and reads the position of a joystick.

use vstd::prelude::*;
use crate::amplifier::run_error;
use crate::builder::{fresh_output, CPUBuilder};
use crate::cpu::CPU;
use crate::device::{Exhausted, InputModel, QueueInput, VecOutput};
use crate::fault::Fault;
use crate::machine::{load, run_for, Snapshot};
use crate::memory::store;
use crate::puzzle::hull::{halted, shown};
use crate::puzzle::plane::{Point, PointMap};

verus! {

/// What a place of the screen shows.
#[derive(Debug, Clone, Copy, PartialEq, Eq, Structural)]
pub enum Tile {
    Empty,
    Wall,
    Block,
    Paddle,
    Ball,
    /// A place that was never drawn.
    Unknown,
}

/// Why the game gave no result.
#[derive(Debug, Clone, Copy, PartialEq, Eq, Structural)]
pub enum ArcadeError {
    /// The program faulted.
    Machine(Fault),
    /// The program drew at a negative coordinate, or a tile that there is not.
    BadMessage,
    /// The program asked for the joystick before it had drawn ball and paddle.
    NothingToFollow,
    /// The program halted and never showed a score.
    NoScore,
}

impl Tile {
    /// The tile with the number `tile_id`, if there is one.
    pub open spec fn of_id(tile_id: i64) -> Option<Tile> {
        if tile_id == 0 {
            Some(Tile::Empty)
        } else if tile_id == 1 {
            Some(Tile::Wall)
        } else if tile_id == 2 {
            Some(Tile::Block)
        } else if tile_id == 3 {
            Some(Tile::Paddle)
        } else if tile_id == 4 {
            Some(Tile::Ball)
        } else {
            None
        }
    }

    /// The tile with a number from 0 to 4.
    pub fn new(tile_id: i64) -> (tile: Self)
        requires
            Tile::of_id(tile_id) is Some,
        ensures
            Tile::of_id(tile_id) == Some(tile),
    {
        match tile_id {
            0 => Tile::Empty,
            1 => Tile::Wall,
            2 => Tile::Block,
            3 => Tile::Paddle,
            _ => Tile::Ball,
        }
    }

    /// The character that the tile is drawn with.
    pub fn to_char(self) -> (c: char)
        ensures
            c == match self {
                Tile::Empty => ' ',
                Tile::Wall => '#',
                Tile::Block => '+',
                Tile::Paddle => '=',
                Tile::Ball => '*',
                Tile::Unknown => '?',
            },
    {
        match self {
            Tile::Empty => ' ',
            Tile::Wall => '#',
            Tile::Block => '+',
            Tile::Paddle => '=',
            Tile::Ball => '*',
            Tile::Unknown => '?',
        }
    }
}

/// The screen, as the specifications see it.
pub struct Display {
    /// The tile at each place that was drawn.
    pub grid: Map<Point, Tile>,
    /// The score, once it was shown.
    pub score: Option<i64>,
    /// Where the ball was drawn last, while it is still there.
    pub ball: Option<Point>,
    /// Where the paddle was drawn last, while it is still there.
    pub paddle: Option<Point>,
}

/// The screen after `tile` was drawn at `coords`: a ball or a paddle that is
/// drawn over is gone, and a ball or a paddle that is drawn is remembered.
pub open spec fn drawn(s: Display, coords: Point, tile: Tile) -> Display {
    let over: Option<Tile> = if s.grid.contains_key(coords) {
        Some(s.grid[coords])
    } else {
        None
    };
    Display {
        grid: s.grid.insert(coords, tile),
        score: s.score,
        ball: if tile == Tile::Ball {
            Some(coords)
        } else if over == Some(Tile::Ball) {
            None
        } else {
            s.ball
        },
        paddle: if tile == Tile::Paddle {
            Some(coords)
        } else if over == Some(Tile::Paddle) {
            None
        } else {
            s.paddle
        },
    }
}

/// The screen after the message `(x, y, tile_id)`: at `(-1, 0)` the message
/// sets the score, elsewhere it draws a tile.
pub open spec fn told(s: Display, x: i64, y: i64, tile_id: i64) -> Result<Display, ArcadeError> {
    if x == -1 && y == 0 {
        Ok(Display { score: Some(tile_id), ..s })
    } else if x < 0 || y < 0 {
        Err(ArcadeError::BadMessage)
    } else {
        match Tile::of_id(tile_id) {
            Some(tile) => Ok(drawn(s, (x, y), tile)),
            None => Err(ArcadeError::BadMessage),
        }
    }
}

/// The screen and the part of a message that waits for its rest.
pub struct Listener {
    pub screen: Display,
    pub msg_buf: Seq<i64>,
}

/// The listener after the program has output `partial_msg`: the third value of
/// a message completes it.
pub open spec fn received(s: Listener, partial_msg: i64) -> Result<Listener, ArcadeError> {
    if s.msg_buf.len() == 2 {
        match told(s.screen, s.msg_buf[0], s.msg_buf[1], partial_msg) {
            Err(error) => Err(error),
            Ok(screen) => Ok(Listener { screen, msg_buf: Seq::empty() }),
        }
    } else {
        Ok(Listener { screen: s.screen, msg_buf: s.msg_buf.push(partial_msg) })
    }
}

/// The listener after the program has output `outputs`, one after the other.
pub open spec fn received_all(s: Listener, outputs: Seq<i64>) -> Result<Listener, ArcadeError>
    decreases outputs.len(),
{
    if outputs.len() == 0 {
        Ok(s)
    } else {
        match received_all(s, outputs.drop_last()) {
            Err(error) => Err(error),
            Ok(t) => received(t, outputs.last()),
        }
    }
}

/// An error among the first `n` outputs is the error of all outputs.
proof fn lemma_received_all_fails(s: Listener, outputs: Seq<i64>, n: int)
    requires
        0 <= n <= outputs.len(),
    ensures
        received_all(s, outputs.take(n)) is Err ==> received_all(s, outputs) == received_all(
            s,
            outputs.take(n),
        ),
    decreases outputs.len() - n,
{
    if n < outputs.len() {
        assert(outputs.take(n + 1).drop_last() =~= outputs.take(n));
        lemma_received_all_fails(s, outputs, n + 1);
    } else {
        assert(outputs.take(n) =~= outputs);
    }
}

/// The empty screen, with no message begun.
pub open spec fn blank() -> Listener {
    Listener {
        screen: Display { grid: Map::empty(), score: None, ball: None, paddle: None },
        msg_buf: Seq::empty(),
    }
}

/// Records tiles drawn to the screen.
pub struct Screen {
    grid: PointMap<Tile>,
    score: Option<i64>,
    /// The most recently drawn ball, if visible.
    ball: Option<Point>,
    /// The most recently drawn paddle, if visible.
    paddle: Option<Point>,
}

impl View for Screen {
    type V = Display;

    closed spec fn view(&self) -> Display {
        Display { grid: self.grid@, score: self.score, ball: self.ball, paddle: self.paddle }
    }
}

impl Screen {
    /// Whether the screen is sound, as every screen is that this module hands
    /// out.
    pub closed spec fn wf(&self) -> bool {
        self.grid.wf()
    }

    /// The places that were drawn, in the order in which they were first
    /// drawn.
    pub closed spec fn places(&self) -> Seq<Point> {
        self.grid.points()
    }

    pub fn new() -> (screen: Self)
        ensures
            screen.wf(),
            screen@ == blank().screen,
    {
        Screen { grid: PointMap::new(), score: None, ball: None, paddle: None }
    }

    /// Updates a place with the tile. Nothing is rendered: the update is only
    /// recorded.
    pub fn draw(&mut self, coords: Point, tile: Tile)
        requires
            old(self).wf(),
            coords.0 >= 0 && coords.1 >= 0,
        ensures
            final(self).wf(),
            final(self)@ == drawn(old(self)@, coords, tile),
    {
        // Overwriting the ball or paddle.
        match self.grid.get(coords) {
            Some(Tile::Ball) => {
                self.ball = None;
            },
            Some(Tile::Paddle) => {
                self.paddle = None;
            },
            _ => (),
        }
        self.grid.insert(coords, tile);
        // Writing a new ball or paddle.
        match tile {
            Tile::Ball => {
                self.ball = Some(coords);
            },
            Tile::Paddle => {
                self.paddle = Some(coords);
            },
            _ => (),
        }
    }

    /// The score, once it was shown.
    pub fn score(&self) -> (score: Option<i64>)
        ensures
            score == self@.score,
    {
        self.score
    }

    /// Where the joystick is to go to follow the ball: -1 to the left, 1 to the
    /// right, 0 where the paddle is under the ball.
    pub fn follow(&self) -> (joystick: Option<i64>)
        ensures
            joystick == follows(self@),
    {
        match (self.ball, self.paddle) {
            (Some(ball), Some(paddle)) => {
                if ball.0 < paddle.0 {
                    Some(-1)
                } else if ball.0 == paddle.0 {
                    Some(0)
                } else {
                    Some(1)
                }
            },
            _ => None,
        }
    }

    /// How many places show `tile`.
    pub fn count(&self, tile: Tile) -> (n: usize)
        requires
            self.wf(),
        ensures
            n == showing(self@.grid, tile).len(),
            showing(self@.grid, tile).finite(),
    {
        let total: usize = self.grid.len();
        let ghost places = self.grid.points();
        let ghost grid = self.grid@;
        let mut n: usize = 0;
        let mut k: usize = 0;
        assert(places.take(0) =~= Seq::<Point>::empty());
        assert(places.take(0).to_set().filter(|p: Point| grid[p] == tile) =~= Set::<Point>::empty());
        while k < total
            invariant
                k <= total == places.len(),
                self.wf(),
                places == self.grid.points(),
                grid == self.grid@,
                self.grid.listed(),
                places.take(k as int).to_set().filter(|p: Point| grid[p] == tile).finite(),
                n == places.take(k as int).to_set().filter(|p: Point| grid[p] == tile).len(),
                n <= k,
            decreases total - k,
        {
            let p: Point = self.grid.point(k);
            let here: bool = match self.grid.get(p) {
                Some(found) => *found == tile,
                None => false,
            };
            proof {
                let f = |p: Point| grid[p] == tile;
                let shorter = places.take(k as int);
                let longer = places.take(k + 1);
                assert(longer =~= shorter.push(p));
                assert(!shorter.contains(p)) by {
                    if shorter.contains(p) {
                        let i = choose|i: int| 0 <= i < shorter.len() && shorter[i] == p;
                        assert(places[i] == places[k as int]);
                    }
                }
                assert(longer.to_set() =~= shorter.to_set().insert(p)) by {
                    assert forall|q: Point| longer.to_set().contains(q) <==> shorter.to_set().insert(
                        p,
                    ).contains(q) by {
                        if longer.contains(q) {
                            let i = choose|i: int| 0 <= i < longer.len() && longer[i] == q;
                            if i < k {
                                assert(shorter[i] == q);
                            }
                        }
                        if shorter.contains(q) {
                            let i = choose|i: int| 0 <= i < shorter.len() && shorter[i] == q;
                            assert(longer[i] == q);
                        }
                        if q == p {
                            assert(longer[k as int] == q);
                        }
                    }
                }
                if here {
                    assert(longer.to_set().filter(f) =~= shorter.to_set().filter(f).insert(p));
                } else {
                    assert(longer.to_set().filter(f) =~= shorter.to_set().filter(f));
                }
            }
            if here {
                n = n + 1;
            }
            k = k + 1;
        }
        proof {
            assert(places.take(total as int) =~= places);
            assert(places.to_set().filter(|p: Point| grid[p] == tile) =~= showing(grid, tile));
        }
        n
    }
}

/// The places of the screen that show `tile`.
pub open spec fn showing(grid: Map<Point, Tile>, tile: Tile) -> Set<Point> {
    Set::new(|p: Point| grid.contains_key(p) && grid[p] == tile)
}

/// Where the joystick is to go to follow the ball, where ball and paddle are
/// on the screen.
pub open spec fn follows(s: Display) -> Option<i64> {
    match (s.ball, s.paddle) {
        (Some(ball), Some(paddle)) => Some(
            if ball.0 < paddle.0 {
                -1i64
            } else if ball.0 == paddle.0 {
                0i64
            } else {
                1i64
            },
        ),
        _ => None,
    }
}

/// Batches up partial messages in groups of 3, and decodes them to draw to the
/// screen.
pub struct ScreenAdapter {
    screen: Screen,
    msg_buf: Vec<i64>,
}

impl View for ScreenAdapter {
    type V = Listener;

    closed spec fn view(&self) -> Listener {
        Listener { screen: self.screen@, msg_buf: self.msg_buf@ }
    }
}

impl ScreenAdapter {
    /// Whether the adapter is sound: its screen is, and it waits for the rest
    /// of a message that is not complete.
    pub closed spec fn wf(&self) -> bool {
        self.screen.wf() && self.msg_buf@.len() < 3
    }

    pub fn new(screen: Screen) -> (adapter: Self)
        requires
            screen.wf(),
        ensures
            adapter.wf(),
            adapter@ == (Listener { screen: screen@, msg_buf: Seq::empty() }),
    {
        ScreenAdapter { screen, msg_buf: Vec::new() }
    }

    /// Receives a partial message. If the message is then complete, processes
    /// it and begins a new one.
    pub fn receive(&mut self, partial_msg: i64) -> (r: Result<(), ArcadeError>)
        requires
            old(self).wf(),
        ensures
            final(self).wf(),
            match r {
                Ok(()) => received(old(self)@, partial_msg) == Ok::<Listener, ArcadeError>(
                    final(self)@,
                ),
                Err(error) => received(old(self)@, partial_msg) == Err::<Listener, ArcadeError>(
                    error,
                ),
            },
    {
        if self.msg_buf.len() == 2 {
            let x: i64 = self.msg_buf[0];
            let y: i64 = self.msg_buf[1];
            let r = self.process_msg(x, y, partial_msg);
            if r.is_ok() {
                self.msg_buf.clear();
            }
            r
        } else {
            self.msg_buf.push(partial_msg);
            Ok(())
        }
    }

    /// Processes a message to draw to the screen, or to update the score.
    fn process_msg(&mut self, x: i64, y: i64, tile_id: i64) -> (r: Result<(), ArcadeError>)
        requires
            old(self).wf(),
        ensures
            final(self).wf(),
            final(self).msg_buf == old(self).msg_buf,
            match r {
                Ok(()) => told(old(self).screen@, x, y, tile_id) == Ok::<Display, ArcadeError>(
                    final(self).screen@,
                ),
                Err(error) => told(old(self).screen@, x, y, tile_id) == Err::<Display, ArcadeError>(
                    error,
                ) && final(self).screen == old(self).screen,
            },
    {
        if x == -1 && y == 0 {
            self.screen.score = Some(tile_id);
            Ok(())
        } else if x < 0 || y < 0 {
            Err(ArcadeError::BadMessage)
        } else if 0 <= tile_id && tile_id <= 4 {
            self.screen.draw((x, y), Tile::new(tile_id));
            Ok(())
        } else {
            Err(ArcadeError::BadMessage)
        }
    }

    /// Receives the values of `outputs`, one after the other.
    pub fn receive_all(&mut self, outputs: &Vec<i64>) -> (r: Result<(), ArcadeError>)
        requires
            old(self).wf(),
        ensures
            final(self).wf(),
            match r {
                Ok(()) => received_all(old(self)@, outputs@) == Ok::<Listener, ArcadeError>(
                    final(self)@,
                ),
                Err(error) => received_all(old(self)@, outputs@) == Err::<Listener, ArcadeError>(
                    error,
                ),
            },
    {
        let mut k: usize = 0;
        assert(outputs@.take(0) =~= Seq::<i64>::empty());
        while k < outputs.len()
            invariant
                k <= outputs@.len(),
                self.wf(),
                received_all(old(self)@, outputs@.take(k as int)) == Ok::<Listener, ArcadeError>(
                    self@,
                ),
            decreases outputs@.len() - k,
        {
            proof {
                assert(outputs@.take(k + 1).drop_last() =~= outputs@.take(k as int));
                lemma_received_all_fails(old(self)@, outputs@, k as int + 1);
            }
            match self.receive(outputs[k]) {
                Ok(()) => {},
                Err(error) => {
                    return Err(error);
                },
            }
            k = k + 1;
        }
        assert(outputs@.take(outputs@.len() as int) =~= outputs@);
        Ok(())
    }

    /// Gives up the adapter for its screen.
    pub fn into_screen(self) -> (screen: Screen)
        requires
            self.wf(),
        ensures
            screen.wf(),
            screen@ == self@.screen,
    {
        self.screen
    }

    /// The screen.
    pub fn screen(&self) -> (screen: &Screen)
        requires
            self.wf(),
        ensures
            screen.wf(),
            screen@ == self@.screen,
    {
        &self.screen
    }
}

/// The screen after the program in `mem` has run to its end without any input.
pub open spec fn first_screen(mem: Seq<i64>) -> Result<Display, ArcadeError> {
    let start = load(
        mem,
        InputModel { pending: Seq::empty(), at_end: Exhausted::Fail },
        fresh_output(),
    );
    let (ran, r) = run_for(start, u64::MAX as nat);
    match run_error(r) {
        Some(fault) => Err(ArcadeError::Machine(fault)),
        None => match received_all(blank(), ran.output.sent) {
            Err(error) => Err(error),
            Ok(listener) => Ok(listener.screen),
        },
    }
}

/// Returns the number of blocks that are drawn to the screen before the game
/// begins.
pub fn num_blocks(mem: Vec<i64>) -> (r: Result<usize, ArcadeError>)
    ensures
        match r {
            Ok(n) => first_screen(mem@) matches Ok(screen) && showing(
                screen.grid,
                Tile::Block,
            ).finite() && n == showing(screen.grid, Tile::Block).len(),
            Err(error) => first_screen(mem@) == Err::<Display, ArcadeError>(error),
        },
{
    let mut adapter: ScreenAdapter = ScreenAdapter::new(Screen::new());
    let builder: CPUBuilder<QueueInput, ()> = CPUBuilder::new(mem);
    let mut cpu: CPU<QueueInput, VecOutput> = builder.default_in().output_vec().finish();
    match cpu.run_internal() {
        Ok(false) => {},
        Ok(true) => {
            return Err(ArcadeError::Machine(Fault::StepLimit));
        },
        Err(fault) => {
            return Err(ArcadeError::Machine(fault));
        },
    }
    let outputs: Vec<i64> = cpu.drain_output();
    match adapter.receive_all(&outputs) {
        Ok(()) => {},
        Err(error) => {
            return Err(error);
        },
    }
    Ok(adapter.screen().count(Tile::Block))
}

/// The score that the screen shows when the program has halted, where it does
/// so within `rounds` rounds. In each round the program runs until it halts or
/// asks for the joystick, which follows the ball; what it has output by then is
/// drawn first.
pub open spec fn played(cpu: Snapshot, s: Listener, rounds: nat) -> Result<i64, ArcadeError>
    decreases rounds,
{
    if rounds == 0 {
        Err(ArcadeError::Machine(Fault::StepLimit))
    } else {
        let (ran, r) = run_for(cpu, u64::MAX as nat);
        match run_error(r) {
            Some(fault) => Err(ArcadeError::Machine(fault)),
            None => match received_all(s, ran.output.sent) {
                Err(error) => Err(error),
                Ok(t) => if halted(ran) {
                    match t.screen.score {
                        Some(score) => Ok(score),
                        None => Err(ArcadeError::NoScore),
                    }
                } else {
                    match follows(t.screen) {
                        None => Err(ArcadeError::NothingToFollow),
                        Some(joystick) => played(shown(ran, joystick), t, (rounds - 1) as nat),
                    }
                },
            },
        }
    }
}

/// The computer at the start of a game that was paid for: the first cell of
/// the program holds two quarters.
pub open spec fn paid(mem: Seq<i64>) -> Snapshot {
    load(
        store(mem, 0, 2),
        InputModel { pending: Seq::empty(), at_end: Exhausted::Halt },
        fresh_output(),
    )
}

/// Inserts two quarters, and plays the game with a joystick that follows the
/// ball. Returns the score at the end.
pub fn final_score(mem: Vec<i64>) -> (r: Result<i64, ArcadeError>)
    requires
        mem@.len() > 0,
    ensures
        r == played(paid(mem@), blank(), u64::MAX as nat),
{
    let ghost goal = played(paid(mem@), blank(), u64::MAX as nat);
    let mut program: Vec<i64> = mem;
    // Insert 2 quarters.
    program.set(0, 2);
    let mut adapter: ScreenAdapter = ScreenAdapter::new(Screen::new());
    let builder: CPUBuilder<QueueInput, ()> = CPUBuilder::new(program);
    let mut cpu: CPU<QueueInput, VecOutput> = builder.input_or_halt(
        QueueInput::halting(Vec::new()),
    ).output_vec().finish();
    let mut rounds: u64 = u64::MAX;
    while rounds > 0
        invariant
            adapter.wf(),
            goal == played(paid(mem@), blank(), u64::MAX as nat),
            goal == played(cpu@, adapter@, rounds as nat),
        decreases rounds,
    {
        match cpu.run_internal() {
            Ok(false) => {},
            Ok(true) => {
                return Err(ArcadeError::Machine(Fault::StepLimit));
            },
            Err(fault) => {
                return Err(ArcadeError::Machine(fault));
            },
        }
        let halted: bool = cpu.at_halt();
        let outputs: Vec<i64> = cpu.drain_output();
        match adapter.receive_all(&outputs) {
            Ok(()) => {},
            Err(error) => {
                return Err(error);
            },
        }
        if halted {
            return match adapter.screen().score() {
                Some(score) => Ok(score),
                None => Err(ArcadeError::NoScore),
            };
        }
        match adapter.screen().follow() {
            Some(joystick) => {
                cpu.feed(joystick);
            },
            None => {
                return Err(ArcadeError::NothingToFollow);
            },
        }
        rounds = rounds - 1;
    }
    Err(ArcadeError::Machine(Fault::StepLimit))
}

} // verus!

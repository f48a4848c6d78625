//! Moons that pull at each other: every moon changes its velocity by one unit
//! per axis towards each other moon, and then moves by its velocity.

use vstd::prelude::*;
use crate::program::{
    each_line,
    find,
    lines,
    lines_of,
    parse_int,
    position,
    token_value,
    COMMA,
    PLUS,
};
use crate::puzzle::number::{checked_lcm, lcm};

verus! {

/// A position or a velocity in space.
#[derive(Debug, Clone, Copy, PartialEq, Eq, Structural)]
pub struct Point {
    pub x: i64,
    pub y: i64,
    pub z: i64,
}

/// A moon: where it is, and how fast it moves.
#[derive(Debug, Clone, Copy, PartialEq, Eq, Structural)]
pub struct Moon {
    pub pos: Point,
    pub vel: Point,
}

/// One of the three axes, which do not influence each other.
#[derive(Debug, Clone, Copy, PartialEq, Eq, Structural)]
pub enum Axis {
    X,
    Y,
    Z,
}

/// No coordinate may leave the range from `-LIMIT` to `LIMIT`, and there may be
/// no more than `LIMIT` moons: a time step then stays within 64 bits.
pub const LIMIT: i64 = 0x1000_0000_0000_0000;

/// The coordinate of `p` on `axis`.
pub open spec fn along(p: Point, axis: Axis) -> i64 {
    match axis {
        Axis::X => p.x,
        Axis::Y => p.y,
        Axis::Z => p.z,
    }
}

/// Whether `v` lies within the limit.
pub open spec fn small(v: int) -> bool {
    -LIMIT <= v <= LIMIT
}

/// Whether every coordinate of `p` lies within the limit.
pub open spec fn near(p: Point) -> bool {
    small(p.x as int) && small(p.y as int) && small(p.z as int)
}

/// Whether the system can take a time step: all positions and velocities lie
/// within the limit, and so does the number of moons.
pub open spec fn calm(moons: Seq<Moon>) -> bool {
    &&& moons.len() <= LIMIT
    &&& forall|i: int| 0 <= i < moons.len() ==> near((#[trigger] moons[i]).pos) && near(moons[i].vel)
}

/// By how much a body at `a` changes its velocity towards a body at `b`.
pub open spec fn pull(a: i64, b: i64) -> int {
    if a < b {
        1
    } else if a > b {
        -1
    } else {
        0
    }
}

/// By how much moon `i` changes its velocity along `axis` towards the first `n`
/// moons.
pub open spec fn pulls(moons: Seq<Moon>, i: int, axis: Axis, n: int) -> int
    decreases n,
{
    if n <= 0 {
        0
    } else {
        pulls(moons, i, axis, n - 1) + pull(
            along(moons[i].pos, axis),
            along(moons[n - 1].pos, axis),
        )
    }
}

/// The velocity of moon `i` along `axis` after the pull of all moons.
pub open spec fn pulled(moons: Seq<Moon>, i: int, axis: Axis) -> int {
    along(moons[i].vel, axis) + pulls(moons, i, axis, moons.len() as int)
}

/// Moon `i` after one time step: its velocity after the pull of all moons, and
/// its position moved by that velocity.
pub open spec fn moved(moons: Seq<Moon>, i: int) -> Moon {
    Moon {
        pos: Point {
            x: (moons[i].pos.x + pulled(moons, i, Axis::X)) as i64,
            y: (moons[i].pos.y + pulled(moons, i, Axis::Y)) as i64,
            z: (moons[i].pos.z + pulled(moons, i, Axis::Z)) as i64,
        },
        vel: Point {
            x: pulled(moons, i, Axis::X) as i64,
            y: pulled(moons, i, Axis::Y) as i64,
            z: pulled(moons, i, Axis::Z) as i64,
        },
    }
}

/// The system after one time step.
pub open spec fn stepped(moons: Seq<Moon>) -> Seq<Moon> {
    Seq::new(moons.len(), |i: int| moved(moons, i))
}

/// The system after `t` time steps; none where it is not calm before one of
/// them.
pub open spec fn after(moons: Seq<Moon>, t: nat) -> Option<Seq<Moon>>
    decreases t,
{
    if t == 0 {
        Some(moons)
    } else if !calm(moons) {
        None
    } else {
        after(stepped(moons), (t - 1) as nat)
    }
}

/// The sum of the magnitudes of the coordinates of `p`.
pub open spec fn spec_energy(p: Point) -> int {
    (if p.x < 0 {
        -p.x
    } else {
        p.x as int
    }) + (if p.y < 0 {
        -p.y
    } else {
        p.y as int
    }) + (if p.z < 0 {
        -p.z
    } else {
        p.z as int
    })
}

/// The energy of a moon: its potential energy times its kinetic energy.
pub open spec fn moon_energy(m: Moon) -> int {
    spec_energy(m.pos) * spec_energy(m.vel)
}

/// The energy of the first `n` moons.
pub open spec fn energy_of(moons: Seq<Moon>, n: int) -> int
    decreases n,
{
    if n <= 0 {
        0
    } else {
        energy_of(moons, n - 1) + moon_energy(moons[n - 1])
    }
}

/// The energy of the system after `t` time steps; none where the system is not
/// calm before or after one of them, or where 64 bits do not hold the energy.
pub open spec fn simulated(moons: Seq<Moon>, t: nat) -> Option<i64> {
    match after(moons, t) {
        None => None,
        Some(end) => if calm(end) && energy_of(end, end.len() as int) <= i64::MAX {
            Some(energy_of(end, end.len() as int) as i64)
        } else {
            None
        },
    }
}

/// The pull of `n` moons is no more than `n`.
proof fn lemma_pulls(moons: Seq<Moon>, i: int, axis: Axis, n: int)
    requires
        0 <= n,
    ensures
        -n <= pulls(moons, i, axis, n) <= n,
    decreases n,
{
    if n > 0 {
        lemma_pulls(moons, i, axis, n - 1);
    }
}

/// Running `t` steps and then one more is running `t + 1` steps.
pub proof fn lemma_after_one_more(moons: Seq<Moon>, t: nat)
    ensures
        after(moons, t + 1) == match after(moons, t) {
            None => None::<Seq<Moon>>,
            Some(end) => if calm(end) {
                Some(stepped(end))
            } else {
                None
            },
        },
    decreases t,
{
    if t == 0 {
        assert(after(moons, 0) == Some(moons));
        if calm(moons) {
            assert(after(stepped(moons), 0) == Some(stepped(moons)));
            assert(after(moons, 1) == after(stepped(moons), 0));
        }
    } else if calm(moons) {
        lemma_after_one_more(stepped(moons), (t - 1) as nat);
        assert(after(moons, t) == after(stepped(moons), (t - 1) as nat));
        assert(after(moons, t + 1) == after(stepped(moons), t));
    }
}

/// The energy of moons is not negative, and grows with their number.
proof fn lemma_energy_of(moons: Seq<Moon>, n: int)
    requires
        0 <= n,
    ensures
        0 <= energy_of(moons, n),
        forall|m: int| 0 <= m <= n ==> energy_of(moons, m) <= energy_of(moons, n),
    decreases n,
{
    if n > 0 {
        lemma_energy_of(moons, n - 1);
        assert(moon_energy(moons[n - 1]) >= 0) by (nonlinear_arith)
            requires
                spec_energy(moons[n - 1].pos) >= 0,
                spec_energy(moons[n - 1].vel) >= 0,
                moon_energy(moons[n - 1]) == spec_energy(moons[n - 1].pos) * spec_energy(
                    moons[n - 1].vel,
                ),
        ;
    }
}

impl Point {
    /// The point at the origin.
    pub fn origin() -> (p: Self)
        ensures
            p == (Point { x: 0, y: 0, z: 0 }),
    {
        Point { x: 0, y: 0, z: 0 }
    }

    /// The sum of the magnitudes of the coordinates.
    pub fn energy(self) -> (e: i128)
        ensures
            e == spec_energy(self),
    {
        let x: i128 = if self.x < 0 {
            -(self.x as i128)
        } else {
            self.x as i128
        };
        let y: i128 = if self.y < 0 {
            -(self.y as i128)
        } else {
            self.y as i128
        };
        let z: i128 = if self.z < 0 {
            -(self.z as i128)
        } else {
            self.z as i128
        };
        x + y + z
    }

    /// Whether every coordinate lies within the limit.
    fn is_near(self) -> (ok: bool)
        ensures
            ok == near(self),
    {
        -LIMIT <= self.x && self.x <= LIMIT && -LIMIT <= self.y && self.y <= LIMIT && -LIMIT
            <= self.z && self.z <= LIMIT
    }

    /// The coordinate on `axis`.
    pub fn coord(self, axis: Axis) -> (v: i64)
        ensures
            v == along(self, axis),
    {
        match axis {
            Axis::X => self.x,
            Axis::Y => self.y,
            Axis::Z => self.z,
        }
    }
}

impl Moon {
    /// A moon at rest at `initial_pos`.
    pub fn new(initial_pos: Point) -> (moon: Self)
        ensures
            moon == (Moon { pos: initial_pos, vel: Point { x: 0, y: 0, z: 0 } }),
    {
        Moon { pos: initial_pos, vel: Point::origin() }
    }

    /// By how much a body at `a` changes its velocity towards a body at `b`.
    fn apply_gravity_coord(a: i64, b: i64) -> (dir: i64)
        ensures
            dir == pull(a, b),
    {
        if a < b {
            1
        } else if a > b {
            -1
        } else {
            0
        }
    }

    /// Changes the velocity of `a` by the pull of `b`.
    pub fn apply_gravity(a: &mut Moon, b: &Moon)
        requires
            i64::MIN < old(a).vel.x < i64::MAX,
            i64::MIN < old(a).vel.y < i64::MAX,
            i64::MIN < old(a).vel.z < i64::MAX,
        ensures
            final(a).pos == old(a).pos,
            final(a).vel.x == old(a).vel.x + pull(old(a).pos.x, b.pos.x),
            final(a).vel.y == old(a).vel.y + pull(old(a).pos.y, b.pos.y),
            final(a).vel.z == old(a).vel.z + pull(old(a).pos.z, b.pos.z),
    {
        a.vel.x = a.vel.x + Self::apply_gravity_coord(a.pos.x, b.pos.x);
        a.vel.y = a.vel.y + Self::apply_gravity_coord(a.pos.y, b.pos.y);
        a.vel.z = a.vel.z + Self::apply_gravity_coord(a.pos.z, b.pos.z);
    }

    /// Moves the moon by its velocity.
    pub fn apply_vel(&mut self)
        requires
            i64::MIN <= old(self).pos.x + old(self).vel.x <= i64::MAX,
            i64::MIN <= old(self).pos.y + old(self).vel.y <= i64::MAX,
            i64::MIN <= old(self).pos.z + old(self).vel.z <= i64::MAX,
        ensures
            final(self).vel == old(self).vel,
            final(self).pos.x == old(self).pos.x + old(self).vel.x,
            final(self).pos.y == old(self).pos.y + old(self).vel.y,
            final(self).pos.z == old(self).pos.z + old(self).vel.z,
    {
        self.pos.x = self.pos.x + self.vel.x;
        self.pos.y = self.pos.y + self.vel.y;
        self.pos.z = self.pos.z + self.vel.z;
    }

    /// The energy of the moon: its potential energy times its kinetic energy.
    pub fn total_energy(&self) -> (e: i128)
        requires
            near(self.pos),
            near(self.vel),
        ensures
            e == moon_energy(*self),
            0 <= e <= 9 * LIMIT * LIMIT,
    {
        let potential: i128 = self.pos.energy();
        let kinetic: i128 = self.vel.energy();
        assert(0 <= potential * kinetic <= 9 * LIMIT * LIMIT) by (nonlinear_arith)
            requires
                0 <= potential <= 3 * LIMIT,
                0 <= kinetic <= 3 * LIMIT,
        ;
        potential * kinetic
    }
}

/// Whether the system can take a time step.
fn is_calm(moons: &Vec<Moon>) -> (ok: bool)
    ensures
        ok == calm(moons@),
{
    if moons.len() as u64 > LIMIT as u64 {
        return false;
    }
    let mut k: usize = 0;
    while k < moons.len()
        invariant
            k <= moons@.len() <= LIMIT,
            forall|i: int| 0 <= i < k ==> near((#[trigger] moons@[i]).pos) && near(moons@[i].vel),
        decreases moons@.len() - k,
    {
        if !(moons[k].pos.is_near() && moons[k].vel.is_near()) {
            return false;
        }
        k = k + 1;
    }
    true
}

/// Simulates the system for one time step.
pub fn time_step(moons: &mut Vec<Moon>)
    requires
        calm(old(moons)@),
    ensures
        final(moons)@ == stepped(old(moons)@),
{
    let n: usize = moons.len();
    let mut next: Vec<Moon> = Vec::new();
    let mut i: usize = 0;
    while i < n
        invariant
            i <= n,
            n == moons@.len(),
            moons@ == old(moons)@,
            calm(moons@),
            next@.len() == i,
            forall|k: int| 0 <= k < i ==> #[trigger] next@[k] == moved(moons@, k),
        decreases n - i,
    {
        let mut moon: Moon = moons[i];
        // Apply the gravity of each moon, updating the velocity.
        let mut j: usize = 0;
        while j < n
            invariant
                j <= n,
                i < n,
                n == moons@.len(),
                calm(moons@),
                moon.pos == moons@[i as int].pos,
                moon.vel.x == moons@[i as int].vel.x + pulls(moons@, i as int, Axis::X, j as int),
                moon.vel.y == moons@[i as int].vel.y + pulls(moons@, i as int, Axis::Y, j as int),
                moon.vel.z == moons@[i as int].vel.z + pulls(moons@, i as int, Axis::Z, j as int),
            decreases n - j,
        {
            proof {
                lemma_pulls(moons@, i as int, Axis::X, j as int);
                lemma_pulls(moons@, i as int, Axis::Y, j as int);
                lemma_pulls(moons@, i as int, Axis::Z, j as int);
            }
            let other: Moon = moons[j];
            Moon::apply_gravity(&mut moon, &other);
            j = j + 1;
        }
        proof {
            lemma_pulls(moons@, i as int, Axis::X, n as int);
            lemma_pulls(moons@, i as int, Axis::Y, n as int);
            lemma_pulls(moons@, i as int, Axis::Z, n as int);
        }
        // Apply the velocity, updating the position.
        moon.apply_vel();
        next.push(moon);
        i = i + 1;
    }
    assert(next@ =~= stepped(moons@));
    *moons = next;
}

/// Simulates the system for `time_steps` rounds, and returns the total energy
/// at the end.
pub fn simulate(moons: Vec<Moon>, time_steps: usize) -> (energy: Option<i64>)
    ensures
        energy == simulated(moons@, time_steps as nat),
{
    let ghost start = moons@;
    let mut system: Vec<Moon> = moons;
    let mut t: usize = 0;
    while t < time_steps
        invariant
            t <= time_steps,
            start == moons@,
            after(start, t as nat) == Some(system@),
        decreases time_steps - t,
    {
        proof {
            lemma_after_one_more(start, t as nat);
            lemma_after_none(start, (t + 1) as nat, time_steps as nat);
        }
        if !is_calm(&system) {
            return None;
        }
        time_step(&mut system);
        t = t + 1;
    }
    if !is_calm(&system) {
        return None;
    }
    let mut total: i64 = 0;
    let mut k: usize = 0;
    while k < system.len()
        invariant
            k <= system@.len(),
            calm(system@),
            start == moons@,
            after(start, time_steps as nat) == Some(system@),
            0 <= total == energy_of(system@, k as int),
        decreases system@.len() - k,
    {
        proof {
            lemma_energy_of(system@, system@.len() as int);
            lemma_energy_of(system@, k as int + 1);
        }
        let energy: i128 = system[k].total_energy();
        if energy > (i64::MAX - total) as i128 {
            assert(energy_of(system@, k + 1) == total + energy);
            return None;
        }
        total = total + energy as i64;
        k = k + 1;
    }
    Some(total)
}

/// A system that is gone after `s` steps is gone after any greater number of
/// steps.
pub proof fn lemma_after_none(moons: Seq<Moon>, s: nat, t: nat)
    requires
        s <= t,
    ensures
        after(moons, s) is None ==> after(moons, t) is None,
    decreases s,
{
    if s > 0 && calm(moons) {
        lemma_after_none(stepped(moons), (s - 1) as nat, (t - 1) as nat);
    }
}

/// Whether two systems of equally many moons agree along `axis`, in every
/// position and every velocity.
pub open spec fn same_along(a: Seq<Moon>, b: Seq<Moon>, axis: Axis) -> bool {
    &&& a.len() == b.len()
    &&& forall|i: int|
        0 <= i < a.len() ==> along((#[trigger] a[i]).pos, axis) == along(b[i].pos, axis) && along(
            a[i].vel,
            axis,
        ) == along(b[i].vel, axis)
}

/// Whether the system is after `t` steps where it started, along `axis`.
pub open spec fn repeats_at(moons: Seq<Moon>, axis: Axis, t: nat) -> bool {
    after(moons, t) matches Some(end) && same_along(end, moons, axis)
}

/// Whether `t` is the first time after the start at which the system is
/// where it started, along `axis`.
pub open spec fn first_at(moons: Seq<Moon>, axis: Axis, t: nat) -> bool {
    &&& t >= 1
    &&& repeats_at(moons, axis, t)
    &&& forall|u: nat| 1 <= u < t ==> !#[trigger] repeats_at(moons, axis, u)
}

/// The first time after the start at which the system is where it started,
/// along `axis`; none where there is none within `u64::MAX` steps.
pub open spec fn first_repeat(moons: Seq<Moon>, axis: Axis) -> Option<u64> {
    if exists|t: nat| t <= u64::MAX && #[trigger] first_at(moons, axis, t) {
        Some((choose|t: nat| t <= u64::MAX && #[trigger] first_at(moons, axis, t)) as u64)
    } else {
        None
    }
}

/// There is one first time at most.
pub proof fn lemma_first_at(moons: Seq<Moon>, axis: Axis, s: nat, t: nat)
    requires
        first_at(moons, axis, s),
        first_at(moons, axis, t),
    ensures
        s == t,
{
}

/// Whether two systems agree along `axis`.
fn agree(a: &Vec<Moon>, b: &Vec<Moon>, axis: Axis) -> (same: bool)
    ensures
        same == same_along(a@, b@, axis),
{
    if a.len() != b.len() {
        return false;
    }
    let mut k: usize = 0;
    while k < a.len()
        invariant
            k <= a@.len(),
            a@.len() == b@.len(),
            forall|i: int|
                0 <= i < k ==> along((#[trigger] a@[i]).pos, axis) == along(b@[i].pos, axis)
                    && along(a@[i].vel, axis) == along(b@[i].vel, axis),
        decreases a@.len() - k,
    {
        if a[k].pos.coord(axis) != b[k].pos.coord(axis) || a[k].vel.coord(axis) != b[k].vel.coord(
            axis,
        ) {
            return false;
        }
        k = k + 1;
    }
    true
}

/// After how many steps is the system first where it started, along `axis`?
/// None where it is not within `u64::MAX` steps, or is not calm before.
pub fn repeat_time_coord(moons: &Vec<Moon>, axis: Axis) -> (time: Option<u64>)
    ensures
        time == first_repeat(moons@, axis),
{
    let mut current: Vec<Moon> = Vec::new();
    let mut k: usize = 0;
    while k < moons.len()
        invariant
            k <= moons@.len(),
            current@ == moons@.take(k as int),
        decreases moons@.len() - k,
    {
        current.push(moons[k]);
        assert(moons@.take(k + 1) =~= moons@.take(k as int).push(moons@[k as int]));
        k = k + 1;
    }
    assert(moons@.take(moons@.len() as int) =~= moons@);
    let mut t: u64 = 0;
    while t < u64::MAX
        invariant
            after(moons@, t as nat) == Some(current@),
            forall|u: nat| 1 <= u <= t ==> !#[trigger] repeats_at(moons@, axis, u),
        decreases u64::MAX - t,
    {
        proof {
            lemma_after_one_more(moons@, t as nat);
        }
        if !is_calm(&current) {
            assert forall|u: nat| 1 <= u <= u64::MAX implies !#[trigger] repeats_at(
                moons@,
                axis,
                u,
            ) by {
                if u > t {
                    lemma_after_none(moons@, (t + 1) as nat, u);
                }
            }
            assert forall|c: nat| c <= u64::MAX implies !#[trigger] first_at(moons@, axis, c) by {
                if c >= 1 {
                    assert(!repeats_at(moons@, axis, c));
                }
            }
            return None;
        }
        time_step(&mut current);
        t = t + 1;
        if agree(&current, moons, axis) {
            proof {
                assert(first_at(moons@, axis, t as nat));
                let chosen = choose|c: nat| c <= u64::MAX && #[trigger] first_at(moons@, axis, c);
                lemma_first_at(moons@, axis, t as nat, chosen);
            }
            return Some(t);
        }
    }
    assert forall|c: nat| c <= u64::MAX implies !#[trigger] first_at(moons@, axis, c) by {
        if c >= 1 {
            assert(!repeats_at(moons@, axis, c));
        }
    }
    None
}

/// The least common multiple of three positive integers, where 64 bits hold
/// it and what it is built from.
pub open spec fn joined(x: u64, y: u64, z: u64) -> Option<i64> {
    let yz = lcm(y as int, z as int);
    if x == 0 || y == 0 || z == 0 || x > i64::MAX || y > i64::MAX || z > i64::MAX {
        None
    } else if yz > i64::MAX || yz <= 0 {
        None
    } else if lcm(x as int, yz) > i64::MAX {
        None
    } else {
        Some(lcm(x as int, yz) as i64)
    }
}

/// What the three times along the axes give together: the least common multiple
/// of the three, where there are three.
pub open spec fn together(x: Option<u64>, y: Option<u64>, z: Option<u64>) -> Option<i64> {
    match (x, y, z) {
        (Some(x), Some(y), Some(z)) => joined(x, y, z),
        _ => None,
    }
}

/// How many steps does it take the system to return to its first state? The
/// axes do not influence each other, so this is the least common multiple of
/// the times that it takes along each axis.
pub fn repeat_time(moons: Vec<Moon>) -> (time: Option<i64>)
    ensures
        time == together(
            first_repeat(moons@, Axis::X),
            first_repeat(moons@, Axis::Y),
            first_repeat(moons@, Axis::Z),
        ),
{
    let x_time: Option<u64> = repeat_time_coord(&moons, Axis::X);
    let y_time: Option<u64> = repeat_time_coord(&moons, Axis::Y);
    let z_time: Option<u64> = repeat_time_coord(&moons, Axis::Z);
    let time: Option<i64> = match (x_time, y_time, z_time) {
        (Some(x), Some(y), Some(z)) => {
            let all: Option<i64> = if x == 0 || y == 0 || z == 0 || x > i64::MAX as u64 || y
                > i64::MAX as u64 || z > i64::MAX as u64 {
                None
            } else {
                // lcm(a, b, c) == lcm(a, lcm(b, c))
                match checked_lcm(y as i64, z as i64) {
                    None => None,
                    Some(yz) => {
                        if yz <= 0 {
                            None
                        } else {
                            checked_lcm(x as i64, yz)
                        }
                    },
                }
            };
            assert(all == joined(x, y, z));
            all
        },
        _ => None,
    };
    assert(time == together(x_time, y_time, z_time));
    time
}

/// The integer that begins at `at` in `line`, behind the bytes `open` and before
/// the first byte `close`, with the place of that byte. The integer is a run of
/// decimal digits, which may have a `-` before it.
pub open spec fn field(line: Seq<u8>, at: int, open: Seq<u8>, close: u8) -> Option<(i64, int)> {
    let from: int = at + open.len();
    if 0 <= at && from <= line.len() && line.subrange(at, from) == open {
        let end: int = from + position(line.skip(from), close);
        let token: Seq<u8> = line.subrange(from, end);
        if end < line.len() && token.len() > 0 && token[0] != PLUS {
            match token_value(token) {
                Some(value) => Some((value, end)),
                None => None,
            }
        } else {
            None
        }
    } else {
        None
    }
}

/// The moon that `line` denotes, as in `<x=-1, y=0, z=2>`: at rest at the
/// place that the line gives.
pub open spec fn moon_of(line: Seq<u8>) -> Option<Moon> {
    match field(line, 0, seq![60u8, 120, 61], COMMA) {
        None => None,
        Some((x, after_x)) => match field(line, after_x, seq![44u8, 32, 121, 61], COMMA) {
            None => None,
            Some((y, after_y)) => match field(line, after_y, seq![44u8, 32, 122, 61], 62) {
                None => None,
                Some((z, after_z)) => if after_z == line.len() - 1 {
                    Some(Moon { pos: Point { x, y, z }, vel: Point { x: 0, y: 0, z: 0 } })
                } else {
                    None
                },
            },
        },
    }
}

/// Reads the integer of a field.
fn read_field(line: &[u8], at: usize, open: &[u8], close: u8) -> (r: Option<(i64, usize)>)
    requires
        at <= line@.len(),
        open@.len() <= 4,
    ensures
        match r {
            Some((value, end)) => field(line@, at as int, open@, close) == Some((value, end as int))
                && end < line@.len(),
            None => field(line@, at as int, open@, close) is None,
        },
{
    if line.len() - at < open.len() {
        return None;
    }
    let from: usize = at + open.len();
    let mut k: usize = 0;
    while k < open.len()
        invariant
            k <= open@.len(),
            from == at + open@.len() <= line@.len(),
            forall|i: int| 0 <= i < k ==> line@[at + i] == open@[i],
        decreases open@.len() - k,
    {
        if line[at + k] != open[k] {
            assert(line@.subrange(at as int, from as int)[k as int] != open@[k as int]);
            return None;
        }
        k = k + 1;
    }
    assert(line@.subrange(at as int, from as int) =~= open@);
    let end: usize = find(line, from, close);
    if end >= line.len() || end == from || line[from] == PLUS {
        return None;
    }
    match parse_int(line, from, end) {
        Some(value) => Some((value, end)),
        None => None,
    }
}

/// Reads one moon.
pub fn read_moon(line: &[u8]) -> (moon: Option<Moon>)
    ensures
        moon == moon_of(line@),
{
    let open_x: [u8; 3] = [60, 120, 61];
    let open_y: [u8; 4] = [44, 32, 121, 61];
    let open_z: [u8; 4] = [44, 32, 122, 61];
    assert(open_x@ =~= seq![60u8, 120, 61]);
    assert(open_y@ =~= seq![44u8, 32, 121, 61]);
    assert(open_z@ =~= seq![44u8, 32, 122, 61]);
    let (x, after_x) = match read_field(line, 0, open_x.as_slice(), COMMA) {
        Some(found) => found,
        None => {
            return None;
        },
    };
    let (y, after_y) = match read_field(line, after_x, open_y.as_slice(), COMMA) {
        Some(found) => found,
        None => {
            return None;
        },
    };
    let (z, after_z) = match read_field(line, after_y, open_z.as_slice(), 62) {
        Some(found) => found,
        None => {
            return None;
        },
    };
    if after_z != line.len() - 1 {
        return None;
    }
    Some(Moon::new(Point { x, y, z }))
}

/// The moons that `input` denotes, one on each line; none where a line
/// denotes no moon, or where there are not four lines.
pub open spec fn moons_of(input: Seq<u8>) -> Option<Seq<Moon>> {
    let all = lines_of(input);
    if all.len() == 4 && forall|k: int| 0 <= k < 4 ==> moon_of(#[trigger] all[k]) is Some {
        Some(Seq::new(4, |k: int| moon_of(all[k]).unwrap()))
    } else {
        None
    }
}

/// Reads the four moons of a system.
pub fn read_input(input: &[u8]) -> (r: Option<Vec<Moon>>)
    ensures
        match r {
            Some(moons) => moons_of(input@) == Some(moons@),
            None => moons_of(input@) is None,
        },
{
    let all: Vec<&[u8]> = lines(input);
    if all.len() != 4 {
        return None;
    }
    let mut moons: Vec<Moon> = Vec::new();
    let mut k: usize = 0;
    while k < 4
        invariant
            k <= 4 == all@.len(),
            each_line(all@) == lines_of(input@),
            moons@.len() == k,
            forall|i: int| 0 <= i < k ==> moon_of(lines_of(input@)[i]) == Some(#[trigger] moons@[i]),
        decreases 4 - k,
    {
        assert(each_line(all@)[k as int] == all@[k as int]@);
        match read_moon(all[k]) {
            Some(moon) => {
                moons.push(moon);
            },
            None => {
                assert(moon_of(lines_of(input@)[k as int]) is None);
                return None;
            },
        }
        k = k + 1;
    }
    proof {
        let all_lines = lines_of(input@);
        assert forall|k: int| 0 <= k < 4 implies moon_of(#[trigger] all_lines[k]) is Some by {
            assert(moon_of(all_lines[k]) == Some(moons@[k]));
        }
        assert(moons@ =~= Seq::new(4, |k: int| moon_of(all_lines[k]).unwrap()));
    }
    Some(moons)
}

} // verus!

//! The world: circles and obstacles, and one discrete simulation step
//! (detect, resolve, integrate, correct).
use vstd::prelude::*;
use crate::body::{Ball, Block, BodyState};
use crate::collision::{ball_block_colliding, ball_block_contact, balls_colliding, balls_contact, Contact};
use crate::fixed::{in_range, sat, sat_i128};
use crate::resolve::{correct_positions, corrected_positions, resolve_collision, resolved_velocities};
use crate::vec2::{vadd, vscale, Vec2};

verus! {

/// Tunable constants of a step, in fixed point.
#[derive(Clone, Copy, Debug, PartialEq, Eq, Structural)]
pub struct Config {
    /// Added to each movable circle's vertical velocity every step.
    pub gravity: i64,
    /// Factor applied to each movable circle's velocity every step.
    pub decay: i64,
    /// Penetration below which no positional correction is made.
    pub slop: i64,
    /// Fraction of the penetration corrected per step between two circles.
    pub ball_percent: i64,
    /// Fraction of the penetration corrected per step against an obstacle.
    pub block_percent: i64,
}

impl Config {
    pub open spec fn wf(self) -> bool {
        &&& in_range(self.gravity as int)
        &&& in_range(self.decay as int)
        &&& in_range(self.ball_percent as int)
        &&& in_range(self.block_percent as int)
    }
}

/// The documented defaults: gravity 0.1 per step, decay 0.99, slop 0.01,
/// and corrections of 10% between circles and 60% against obstacles.
pub open spec fn default_config() -> Config {
    Config { gravity: 1000, decay: 9900, slop: 100, ball_percent: 1000, block_percent: 6000 }
}

impl Default for Config {
    fn default() -> (r: Config)
        ensures
            r == default_config(),
    {
        Config { gravity: 1000, decay: 9900, slop: 100, ball_percent: 1000, block_percent: 6000 }
    }
}

/// The second body of a contact: another circle or an obstacle, by index.
#[derive(Clone, Copy, Debug, PartialEq, Eq, Structural)]
pub enum Partner {
    Ball(usize),
    Block(usize),
}

/// A contact found in a step, between circle `a` and `b`.
#[derive(Clone, Copy, Debug, PartialEq, Eq, Structural)]
pub struct Manifold {
    pub a: usize,
    pub b: Partner,
    pub contact: Contact,
}

impl Manifold {
    pub fn new(a: usize, b: Partner, contact: Contact) -> (r: Manifold)
        ensures
            r == (Manifold { a, b, contact }),
    {
        Manifold { a, b, contact }
    }
}

/// The manifold is a well-formed contact between bodies that exist; a
/// circle partner comes after `a`.
pub open spec fn valid(m: Manifold, n_balls: int, n_blocks: int) -> bool {
    &&& m.a < n_balls
    &&& match m.b {
        Partner::Ball(j) => m.a < j < n_balls,
        Partner::Block(k) => k < n_blocks,
    }
    &&& m.contact.wf()
}

pub open spec fn found(c: Option<Contact>, a: int, b: Partner) -> Seq<Manifold> {
    match c {
        Some(c) => seq![Manifold { a: a as usize, b, contact: c }],
        None => seq![],
    }
}

/// Contacts of circle `i` with the circles `i + 1 .. j`, in order.
pub open spec fn ball_row(balls: Seq<Ball>, i: int, j: int) -> Seq<Manifold>
    decreases j - i,
{
    if j <= i + 1 {
        seq![]
    } else {
        ball_row(balls, i, j - 1) + found(
            balls_contact(balls[i], balls[j - 1]),
            i,
            Partner::Ball((j - 1) as usize),
        )
    }
}

/// Contacts between circles, each pair once, for the first circles `0 .. i`.
pub open spec fn ball_pairs(balls: Seq<Ball>, i: int) -> Seq<Manifold>
    decreases i,
{
    if i <= 0 {
        seq![]
    } else {
        ball_pairs(balls, i - 1) + ball_row(balls, i - 1, balls.len() as int)
    }
}

/// Contacts of circle `i` with the obstacles `0 .. k`, in order.
pub open spec fn block_row(balls: Seq<Ball>, blocks: Seq<Block>, i: int, k: int) -> Seq<Manifold>
    decreases k,
{
    if k <= 0 {
        seq![]
    } else {
        block_row(balls, blocks, i, k - 1) + found(
            ball_block_contact(balls[i], blocks[k - 1]),
            i,
            Partner::Block((k - 1) as usize),
        )
    }
}

/// Contacts between the circles `0 .. i` and the obstacles.
pub open spec fn block_pairs(balls: Seq<Ball>, blocks: Seq<Block>, i: int) -> Seq<Manifold>
    decreases i,
{
    if i <= 0 {
        seq![]
    } else {
        block_pairs(balls, blocks, i - 1) + block_row(balls, blocks, i - 1, blocks.len() as int)
    }
}

/// Every contact of a world, circle pairs first, then circles against
/// obstacles.
pub open spec fn contacts(balls: Seq<Ball>, blocks: Seq<Block>) -> Seq<Manifold> {
    ball_pairs(balls, balls.len() as int) + block_pairs(balls, blocks, balls.len() as int)
}

pub open spec fn partner_state(balls: Seq<Ball>, blocks: Seq<Block>, p: Partner) -> BodyState {
    match p {
        Partner::Ball(j) => balls[j as int].spec_state(),
        Partner::Block(k) => blocks[k as int].spec_state(),
    }
}

pub open spec fn with_velocity(b: Ball, v: Vec2) -> Ball {
    Ball { velocity: v, ..b }
}

pub open spec fn with_position(b: Ball, p: Vec2) -> Ball {
    Ball { position: p, ..b }
}

/// The circles after the impulse of one manifold.
pub open spec fn resolve_one(balls: Seq<Ball>, blocks: Seq<Block>, m: Manifold) -> Seq<Ball> {
    if !valid(m, balls.len() as int, blocks.len() as int) {
        balls
    } else {
        let a = m.a as int;
        let r = resolved_velocities(
            balls[a].spec_state(),
            partner_state(balls, blocks, m.b),
            m.contact.normal,
        );
        let s = balls.update(a, with_velocity(balls[a], r.0));
        match m.b {
            Partner::Ball(j) => s.update(j as int, with_velocity(balls[j as int], r.1)),
            Partner::Block(_) => s,
        }
    }
}

/// The circles after the impulses of the first `k` manifolds, in order.
pub open spec fn resolve_all(balls: Seq<Ball>, blocks: Seq<Block>, ms: Seq<Manifold>, k: int) -> Seq<Ball>
    decreases k,
{
    if k <= 0 {
        balls
    } else {
        resolve_one(resolve_all(balls, blocks, ms, k - 1), blocks, ms[k - 1])
    }
}

/// A movable circle falls, moves by its new velocity, then slows down; a
/// fixed one stays as it is.
pub open spec fn integrate_ball(b: Ball, cfg: Config) -> Ball {
    if b.mass == 0 {
        b
    } else {
        let v = Vec2 { x: b.velocity.x, y: sat(b.velocity.y + cfg.gravity) as i64 };
        Ball { position: vadd(b.position, v), velocity: vscale(v, cfg.decay as int), ..b }
    }
}

pub open spec fn integrate_all(balls: Seq<Ball>, cfg: Config) -> Seq<Ball> {
    Seq::new(balls.len(), |i: int| integrate_ball(balls[i], cfg))
}

pub open spec fn percent_for(p: Partner, cfg: Config) -> int {
    match p {
        Partner::Ball(_) => cfg.ball_percent as int,
        Partner::Block(_) => cfg.block_percent as int,
    }
}

/// The circles after the positional correction of one manifold.
pub open spec fn correct_one(balls: Seq<Ball>, blocks: Seq<Block>, m: Manifold, cfg: Config) -> Seq<Ball> {
    if !valid(m, balls.len() as int, blocks.len() as int) {
        balls
    } else {
        let a = m.a as int;
        let r = corrected_positions(
            balls[a].spec_state(),
            partner_state(balls, blocks, m.b),
            m.contact,
            percent_for(m.b, cfg),
            cfg.slop as int,
        );
        let s = balls.update(a, with_position(balls[a], r.0));
        match m.b {
            Partner::Ball(j) => s.update(j as int, with_position(balls[j as int], r.1)),
            Partner::Block(_) => s,
        }
    }
}

pub open spec fn correct_all(
    balls: Seq<Ball>,
    blocks: Seq<Block>,
    ms: Seq<Manifold>,
    k: int,
    cfg: Config,
) -> Seq<Ball>
    decreases k,
{
    if k <= 0 {
        balls
    } else {
        correct_one(correct_all(balls, blocks, ms, k - 1, cfg), blocks, ms[k - 1], cfg)
    }
}

/// The circles after one step: the contacts found at the start are resolved
/// in order, every circle is integrated, then the same contacts are
/// corrected in order.
pub open spec fn step_model(balls: Seq<Ball>, blocks: Seq<Block>, cfg: Config) -> Seq<Ball> {
    let ms = contacts(balls, blocks);
    let resolved = resolve_all(balls, blocks, ms, ms.len() as int);
    correct_all(integrate_all(resolved, cfg), blocks, ms, ms.len() as int, cfg)
}

pub struct Engine {
    pub width: u32,
    pub height: u32,
    pub balls: Vec<Ball>,
    pub blocks: Vec<Block>,
    pub config: Config,
}

pub open spec fn all_wf(balls: Seq<Ball>) -> bool {
    forall|i: int| 0 <= i < balls.len() ==> #[trigger] balls[i].wf()
}

pub open spec fn blocks_wf(blocks: Seq<Block>) -> bool {
    forall|i: int| 0 <= i < blocks.len() ==> #[trigger] blocks[i].wf()
}

/// Same circle, as a copy holds it.
pub open spec fn same_ball(a: Ball, b: Ball) -> bool {
    &&& a.position == b.position
    &&& a.velocity == b.velocity
    &&& a.radius == b.radius
    &&& a.restitution == b.restitution
    &&& a.mass == b.mass
    &&& a.inv_mass == b.inv_mass
    &&& a.color@ == b.color@
}

impl Engine {
    pub open spec fn wf(&self) -> bool {
        &&& all_wf(self.balls@)
        &&& blocks_wf(self.blocks@)
        &&& self.config.wf()
    }

    /// A world with the default configuration.
    pub fn new(width: u32, height: u32, balls: Vec<Ball>, blocks: Vec<Block>) -> (r: Engine)
        ensures
            r.width == width,
            r.height == height,
            r.balls@ == balls@,
            r.blocks@ == blocks@,
            r.config == default_config(),
    {
        Engine { width, height, balls, blocks, config: Config::default() }
    }

    pub fn with_config(width: u32, height: u32, balls: Vec<Ball>, blocks: Vec<Block>, config: Config) -> (r: Engine)
        ensures
            r.width == width,
            r.height == height,
            r.balls@ == balls@,
            r.blocks@ == blocks@,
            r.config == config,
    {
        Engine { width, height, balls, blocks, config }
    }

    /// Copies of the circles.
    pub fn balls(&self) -> (r: Vec<Ball>)
        ensures
            r.len() == self.balls.len(),
            forall|i: int| 0 <= i < r.len() ==> same_ball(#[trigger] r@[i], self.balls@[i]),
    {
        let mut r: Vec<Ball> = Vec::new();
        let mut i: usize = 0;
        while i < self.balls.len()
            invariant
                i <= self.balls.len(),
                r.len() == i,
                forall|k: int| 0 <= k < i ==> same_ball(#[trigger] r@[k], self.balls@[k]),
            decreases self.balls.len() - i,
        {
            let b = &self.balls[i];
            r.push(
                Ball {
                    position: b.position,
                    velocity: b.velocity,
                    radius: b.radius,
                    restitution: b.restitution,
                    mass: b.mass,
                    color: b.color.clone(),
                    inv_mass: b.inv_mass,
                },
            );
            i += 1;
        }
        r
    }

    /// Copies of the obstacles.
    pub fn blocks(&self) -> (r: Vec<Block>)
        ensures
            r@ == self.blocks@,
    {
        let mut r: Vec<Block> = Vec::new();
        let mut i: usize = 0;
        while i < self.blocks.len()
            invariant
                i <= self.blocks.len(),
                r@ == self.blocks@.subrange(0, i as int),
            decreases self.blocks.len() - i,
        {
            r.push(self.blocks[i]);
            i += 1;
            assert(r@ =~= self.blocks@.subrange(0, i as int));
        }
        assert(r@ =~= self.blocks@);
        r
    }

    pub fn add_ball(&mut self, ball: Ball)
        ensures
            final(self).balls@ == old(self).balls@.push(ball),
            final(self).blocks@ == old(self).blocks@,
            final(self).config == old(self).config,
    {
        self.balls.push(ball);
    }

    pub fn add_block(&mut self, block: Block)
        ensures
            final(self).blocks@ == old(self).blocks@.push(block),
            final(self).balls@ == old(self).balls@,
            final(self).config == old(self).config,
    {
        self.blocks.push(block);
    }
    /// Every contact of the current world, as `contacts` lists them.
    #[verifier::rlimit(50)]
    pub fn collect_contacts(&self) -> (ms: Vec<Manifold>)
        requires
            self.wf(),
        ensures
            ms@ == contacts(self.balls@, self.blocks@),
            forall|k: int| 0 <= k < ms.len() ==> valid(#[trigger] ms@[k], self.balls.len() as int, self.blocks.len() as int),
    {
        let n = self.balls.len();
        let nk = self.blocks.len();
        let ghost balls = self.balls@;
        let ghost blocks = self.blocks@;
        let mut ms: Vec<Manifold> = Vec::new();
        let mut i: usize = 0;
        while i < n
            invariant
                self.wf(),
                n == self.balls.len(),
                nk == self.blocks.len(),
                balls == self.balls@,
                blocks == self.blocks@,
                i <= n,
                ms@ == ball_pairs(balls, i as int),
                forall|k: int| 0 <= k < ms.len() ==> valid(#[trigger] ms@[k], n as int, nk as int),
            decreases n - i,
        {
            let mut j: usize = i + 1;
            while j < n
                invariant
                    self.wf(),
                    n == self.balls.len(),
                    nk == self.blocks.len(),
                    balls == self.balls@,
                    i < n,
                    i + 1 <= j <= n,
                    ms@ == ball_pairs(balls, i as int) + ball_row(balls, i as int, j as int),
                    forall|k: int| 0 <= k < ms.len() ==> valid(#[trigger] ms@[k], n as int, nk as int),
                decreases n - j,
            {
                let ghost before = ms@;
                let c = balls_colliding(&self.balls[i], &self.balls[j]);
                match c {
                    Some(c) => {
                        ms.push(Manifold::new(i, Partner::Ball(j), c));
                    },
                    None => {},
                }
                assert(ms@ =~= before + found(c, i as int, Partner::Ball(j)));
                assert(ball_row(balls, i as int, j + 1) == ball_row(balls, i as int, j as int) + found(
                    c,
                    i as int,
                    Partner::Ball(j),
                ));
                assert(ms@ =~= ball_pairs(balls, i as int) + ball_row(balls, i as int, j + 1));
                j += 1;
            }
            assert(ball_pairs(balls, i + 1) == ball_pairs(balls, i as int) + ball_row(balls, i as int, n as int));
            i += 1;
        }
        let ghost pairs = ms@;
        let mut i: usize = 0;
        while i < n
            invariant
                self.wf(),
                n == self.balls.len(),
                nk == self.blocks.len(),
                balls == self.balls@,
                blocks == self.blocks@,
                i <= n,
                pairs == ball_pairs(balls, n as int),
                ms@ == pairs + block_pairs(balls, blocks, i as int),
                forall|k: int| 0 <= k < ms.len() ==> valid(#[trigger] ms@[k], n as int, nk as int),
            decreases n - i,
        {
            let mut k: usize = 0;
            while k < nk
                invariant
                    self.wf(),
                    n == self.balls.len(),
                    nk == self.blocks.len(),
                    balls == self.balls@,
                    blocks == self.blocks@,
                    i < n,
                    k <= nk,
                    ms@ == pairs + block_pairs(balls, blocks, i as int) + block_row(balls, blocks, i as int, k as int),
                    forall|q: int| 0 <= q < ms.len() ==> valid(#[trigger] ms@[q], n as int, nk as int),
                decreases nk - k,
            {
                let ghost before = ms@;
                let c = ball_block_colliding(&self.balls[i], &self.blocks[k]);
                match c {
                    Some(c) => {
                        ms.push(Manifold::new(i, Partner::Block(k), c));
                    },
                    None => {},
                }
                assert(ms@ =~= before + found(c, i as int, Partner::Block(k)));
                assert(block_row(balls, blocks, i as int, k + 1) == block_row(balls, blocks, i as int, k as int)
                    + found(c, i as int, Partner::Block(k)));
                assert(ms@ =~= pairs + block_pairs(balls, blocks, i as int) + block_row(balls, blocks, i as int, k + 1));
                k += 1;
            }
            assert(block_pairs(balls, blocks, i + 1) == block_pairs(balls, blocks, i as int) + block_row(
                balls,
                blocks,
                i as int,
                nk as int,
            ));
            assert(ms@ =~= pairs + block_pairs(balls, blocks, i + 1));
            i += 1;
        }
        ms
    }
    fn partner(&self, p: Partner) -> (r: BodyState)
        requires
            self.wf(),
            match p {
                Partner::Ball(j) => j < self.balls.len(),
                Partner::Block(k) => k < self.blocks.len(),
            },
        ensures
            r == partner_state(self.balls@, self.blocks@, p),
            r.wf(),
    {
        match p {
            Partner::Ball(j) => self.balls[j].state(),
            Partner::Block(k) => self.blocks[k].state(),
        }
    }

    /// Applies the impulse of one manifold.
    fn apply_impulse(&mut self, m: Manifold)
        requires
            old(self).wf(),
            valid(m, old(self).balls.len() as int, old(self).blocks.len() as int),
        ensures
            final(self).wf(),
            final(self).balls@ == resolve_one(old(self).balls@, old(self).blocks@, m),
            final(self).blocks@ == old(self).blocks@,
            final(self).config == old(self).config,
            final(self).width == old(self).width,
            final(self).height == old(self).height,
    {
        let sa = self.balls[m.a].state();
        let sb = self.partner(m.b);
        let (va, vb) = resolve_collision(&sa, &sb, m.contact.normal);
        self.balls[m.a].velocity = va;
        match m.b {
            Partner::Ball(j) => {
                self.balls[j].velocity = vb;
            },
            Partner::Block(_) => {},
        }
        assert(self.balls@ =~= resolve_one(old(self).balls@, old(self).blocks@, m));
        assert forall|i: int| 0 <= i < self.balls@.len() implies #[trigger] self.balls@[i].wf() by {
            assert(old(self).balls@[i].wf());
        }
    }

    /// Applies the positional correction of one manifold.
    fn apply_correction(&mut self, m: Manifold)
        requires
            old(self).wf(),
            valid(m, old(self).balls.len() as int, old(self).blocks.len() as int),
        ensures
            final(self).wf(),
            final(self).balls@ == correct_one(old(self).balls@, old(self).blocks@, m, old(self).config),
            final(self).blocks@ == old(self).blocks@,
            final(self).config == old(self).config,
            final(self).width == old(self).width,
            final(self).height == old(self).height,
    {
        let sa = self.balls[m.a].state();
        let sb = self.partner(m.b);
        let percent = match m.b {
            Partner::Ball(_) => self.config.ball_percent,
            Partner::Block(_) => self.config.block_percent,
        };
        let (pa, pb) = correct_positions(&sa, &sb, &m.contact, percent, self.config.slop);
        self.balls[m.a].position = pa;
        match m.b {
            Partner::Ball(j) => {
                self.balls[j].position = pb;
            },
            Partner::Block(_) => {},
        }
        assert(self.balls@ =~= correct_one(old(self).balls@, old(self).blocks@, m, old(self).config));
        assert forall|i: int| 0 <= i < self.balls@.len() implies #[trigger] self.balls@[i].wf() by {
            assert(old(self).balls@[i].wf());
        }
    }

    /// Moves every movable circle by one step.
    fn integrate(&mut self)
        requires
            old(self).wf(),
        ensures
            final(self).wf(),
            final(self).balls@ == integrate_all(old(self).balls@, old(self).config),
            final(self).blocks@ == old(self).blocks@,
            final(self).config == old(self).config,
            final(self).width == old(self).width,
            final(self).height == old(self).height,
    {
        let ghost start = self.balls@;
        let n = self.balls.len();
        let mut i: usize = 0;
        while i < n
            invariant
                self.wf(),
                n == self.balls.len(),
                n == start.len(),
                i <= n,
                self.blocks@ == old(self).blocks@,
                self.config == old(self).config,
                self.width == old(self).width,
                self.height == old(self).height,
                start == old(self).balls@,
                forall|k: int| 0 <= k < i ==> self.balls@[k] == integrate_ball(#[trigger] start[k], self.config),
                forall|k: int| i <= k < n ==> self.balls@[k] == #[trigger] start[k],
            decreases n - i,
        {
            assert(self.balls@[i as int].wf());
            let ghost before = self.balls@;
            if self.balls[i].mass != 0 {
                let v0 = self.balls[i].velocity;
                let v = Vec2 { x: v0.x, y: sat_i128(v0.y as i128 + self.config.gravity as i128) };
                let p = self.balls[i].position.add(v);
                let decay = self.config.decay;
                self.balls[i].position = p;
                self.balls[i].velocity = v.scale(decay);
            }
            assert forall|k: int| 0 <= k < n implies #[trigger] self.balls@[k].wf() by {
                assert(before[k].wf());
            }
            i += 1;
        }
        assert(self.balls@ =~= integrate_all(start, self.config));
    }

    /// Advances the world by one step: contacts are found, their impulses
    /// applied in order, every movable circle integrated, then the same
    /// contacts corrected in order. Obstacles never change.
    pub fn update_manifest(&mut self)
        requires
            old(self).wf(),
        ensures
            final(self).wf(),
            final(self).balls@ == step_model(old(self).balls@, old(self).blocks@, old(self).config),
            final(self).blocks@ == old(self).blocks@,
            final(self).config == old(self).config,
            final(self).width == old(self).width,
            final(self).height == old(self).height,
    {
        let ghost start = self.balls@;
        let ms = self.collect_contacts();
        let mut k: usize = 0;
        while k < ms.len()
            invariant
                self.wf(),
                k <= ms.len(),
                self.balls.len() == start.len(),
                self.blocks@ == old(self).blocks@,
                self.config == old(self).config,
                self.width == old(self).width,
                self.height == old(self).height,
                start == old(self).balls@,
                ms@ == contacts(start, self.blocks@),
                forall|q: int| 0 <= q < ms.len() ==> valid(#[trigger] ms@[q], start.len() as int, self.blocks.len() as int),
                self.balls@ == resolve_all(start, self.blocks@, ms@, k as int),
            decreases ms.len() - k,
        {
            self.apply_impulse(ms[k]);
            k += 1;
        }
        let ghost resolved = self.balls@;
        self.integrate();
        let ghost integrated = self.balls@;
        let mut k: usize = 0;
        while k < ms.len()
            invariant
                self.wf(),
                k <= ms.len(),
                self.balls.len() == start.len(),
                self.blocks@ == old(self).blocks@,
                self.config == old(self).config,
                self.width == old(self).width,
                self.height == old(self).height,
                forall|q: int| 0 <= q < ms.len() ==> valid(#[trigger] ms@[q], start.len() as int, self.blocks.len() as int),
                self.balls@ == correct_all(integrated, self.blocks@, ms@, k as int, self.config),
            decreases ms.len() - k,
        {
            self.apply_correction(ms[k]);
            k += 1;
        }
    }
}

} // verus!

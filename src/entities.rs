use vstd::prelude::*;

use crate::chance::random_between;
use crate::geometry::{
    clamp_to_world, clamp_world, in_world, travel, travel_of, Dir, Rect, DIR_ONE, WORLD_LIMIT,
};

verus! {

/// Paddle width, in units.
pub const PLAYER_WIDTH: i64 = 150_000;
/// Paddle height, in units.
pub const PLAYER_HEIGHT: i64 = 40_000;
/// Distance from the paddle's top edge to the bottom of the screen, in units.
pub const PLAYER_FLOOR_GAP: i64 = 100_000;
/// Paddle speed, in pixels per second.
pub const PLAYER_SPEED: i64 = 700;
/// Block width, in units.
pub const BLOCK_WIDTH: i64 = 90_000;
/// Block height, in units.
pub const BLOCK_HEIGHT: i64 = 40_000;
/// Lives of a new block.
pub const BLOCK_LIVES: i32 = 2;
/// Side of the square ball, in units.
pub const BALL_SIZE: i64 = 20_000;
/// Ball speed, in pixels per second.
pub const BALL_SPEED: i64 = 500;

/// The paddle.
#[derive(Clone, Copy, Debug, PartialEq, Eq, Structural)]
pub struct Player {
    pub rect: Rect,
}

/// Where the paddle's left edge may stand on a screen `screen_w` wide:
/// `x` pushed into `[0, screen_w - PLAYER_WIDTH]`.
pub open spec fn keep_on_screen(x: int, screen_w: int) -> int {
    if x < 0 {
        0
    } else if x > screen_w - PLAYER_WIDTH {
        screen_w - PLAYER_WIDTH
    } else {
        x
    }
}

/// The keyboard axis: -1 for left alone, 1 for right alone, else 0.
pub open spec fn axis(left: bool, right: bool) -> int {
    (if right { 1int } else { 0int }) - (if left { 1int } else { 0int })
}

fn keep_paddle_on_screen(x: i64, screen_w: i64) -> (r: i64)
    requires
        0 <= screen_w <= WORLD_LIMIT,
    ensures
        r == keep_on_screen(x as int, screen_w as int),
{
    if x < 0 {
        0
    } else if x > screen_w - PLAYER_WIDTH {
        screen_w - PLAYER_WIDTH
    } else {
        x
    }
}

impl Player {
    pub open spec fn wf(self) -> bool {
        self.rect.wf() && self.rect.w == PLAYER_WIDTH && self.rect.h == PLAYER_HEIGHT
    }

    /// The paddle after one frame of keyboard input.
    pub open spec fn steered(self, left: bool, right: bool, dt_us: u32, screen_w: i64) -> Player {
        let x = self.rect.x + travel(axis(left, right) * DIR_ONE, dt_us as int, PLAYER_SPEED as int);
        Player { rect: Rect { x: keep_on_screen(x, screen_w as int) as i64, ..self.rect } }
    }

    /// The paddle centred horizontally near the bottom of the screen.
    pub open spec fn new_at(screen_w: i64, screen_h: i64) -> Player {
        Player {
            rect: Rect {
                x: (screen_w / 2 - PLAYER_WIDTH / 2) as i64,
                y: (screen_h - PLAYER_FLOOR_GAP) as i64,
                w: PLAYER_WIDTH,
                h: PLAYER_HEIGHT,
            },
        }
    }

    /// A paddle centred horizontally near the bottom of the screen.
    pub fn new(screen_w: i64, screen_h: i64) -> (r: Player)
        requires
            0 <= screen_w <= WORLD_LIMIT,
            0 <= screen_h <= WORLD_LIMIT,
        ensures
            r == Player::new_at(screen_w, screen_h),
            r.wf(),
    {
        Player {
            rect: Rect::new(
                screen_w / 2 - PLAYER_WIDTH / 2,
                screen_h - PLAYER_FLOOR_GAP,
                PLAYER_WIDTH,
                PLAYER_HEIGHT,
            ),
        }
    }

    /// Moves the paddle by the keyboard axis for `dt_us` microseconds, then
    /// keeps it on a screen `screen_w` wide.
    pub fn update(&mut self, left: bool, right: bool, dt_us: u32, screen_w: i64)
        requires
            old(self).wf(),
            0 <= screen_w <= WORLD_LIMIT,
        ensures
            *final(self) == old(self).steered(left, right, dt_us, screen_w),
            final(self).wf(),
            screen_w >= PLAYER_WIDTH ==> 0 <= final(self).rect.x <= screen_w - PLAYER_WIDTH,
    {
        let dir: i64 = if right { DIR_ONE } else { 0 } - if left { DIR_ONE } else { 0 };
        let step = travel_of(dir, dt_us, PLAYER_SPEED);
        self.rect.x = keep_paddle_on_screen(self.rect.x + step, screen_w);
    }

    /// Centres the paddle under the mouse, then keeps it on a screen
    /// `screen_w` wide.
    pub fn follow_mouse(&mut self, mouse_x: i64, screen_w: i64)
        requires
            old(self).wf(),
            0 <= screen_w <= WORLD_LIMIT,
        ensures
            *final(self) == (Player {
                rect: Rect {
                    x: keep_on_screen(mouse_x - PLAYER_WIDTH / 2, screen_w as int) as i64,
                    ..old(self).rect
                },
            }),
            final(self).wf(),
            screen_w >= PLAYER_WIDTH ==> 0 <= final(self).rect.x <= screen_w - PLAYER_WIDTH,
    {
        if mouse_x < PLAYER_WIDTH / 2 {
            self.rect.x = 0;
        } else {
            self.rect.x = keep_paddle_on_screen(mouse_x - PLAYER_WIDTH / 2, screen_w);
        }
    }
}

/// The colour a block is drawn in.
#[derive(Clone, Copy, Debug, PartialEq, Eq, Structural)]
pub enum Tint {
    Blue,
    Red,
    White,
}

/// A destructible block of the grid.
#[derive(Clone, Copy, Debug, PartialEq, Eq, Structural)]
pub struct Block {
    pub rect: Rect,
    pub lives: i32,
}

/// The colour of a block with `lives` lives left.
pub open spec fn tint_of(lives: i32) -> Tint {
    if lives == 2 {
        Tint::Blue
    } else if lives == 1 {
        Tint::Red
    } else {
        Tint::White
    }
}

impl Block {
    pub open spec fn wf(self) -> bool {
        self.rect.wf() && self.rect.w == BLOCK_WIDTH && self.rect.h == BLOCK_HEIGHT
    }

    pub open spec fn alive(self) -> bool {
        self.lives > 0
    }

    /// The block after a ball strikes it: one life fewer (a count already at
    /// `i32::MIN` stays there).
    pub open spec fn struck(self) -> Block {
        Block { lives: if self.lives > i32::MIN { (self.lives - 1) as i32 } else { self.lives }, ..self }
    }

    /// A block with its top-left corner at `(x, y)` and all its lives.
    pub fn new(x: i64, y: i64) -> (r: Block)
        requires
            in_world(x as int),
            in_world(y as int),
        ensures
            r == (Block { rect: Rect { x, y, w: BLOCK_WIDTH, h: BLOCK_HEIGHT }, lives: BLOCK_LIVES }),
            r.wf(),
    {
        Block { rect: Rect::new(x, y, BLOCK_WIDTH, BLOCK_HEIGHT), lives: BLOCK_LIVES }
    }

    /// Takes one life from the block.
    pub fn strike(&mut self)
        ensures
            *final(self) == old(self).struck(),
    {
        if self.lives > i32::MIN {
            self.lives = self.lives - 1;
        }
    }

    /// The colour that shows how many lives are left.
    pub fn tint(&self) -> (r: Tint)
        ensures
            r == tint_of(self.lives),
    {
        if self.lives == 2 {
            Tint::Blue
        } else if self.lives == 1 {
            Tint::Red
        } else {
            Tint::White
        }
    }
}


/// The largest `r` with `r * r <= n`, found by counting up from `r`.
pub open spec fn root_from(n: int, r: int) -> int
    decreases n - r,
{
    if r >= n || (r + 1) * (r + 1) > n {
        r
    } else {
        root_from(n, r + 1)
    }
}

/// The integer square root of `n`, rounded down.
pub open spec fn root(n: int) -> int {
    root_from(n, 0)
}

proof fn lemma_root_from(n: int, r: int)
    requires
        0 <= r,
        r * r <= n,
    ensures
        root_from(n, r) * root_from(n, r) <= n < (root_from(n, r) + 1) * (root_from(n, r) + 1),
    decreases n - r,
{
    if r >= n {
        assert((r + 1) * (r + 1) > n) by (nonlinear_arith)
            requires r >= n, r >= 0;
    } else if (r + 1) * (r + 1) > n {
    } else {
        lemma_root_from(n, r + 1);
    }
}

/// The integer square root of `n`, rounded down.
pub fn isqrt(n: u64) -> (r: u64)
    requires
        n <= 4_000_000,
    ensures
        r == root(n as int),
        r * r <= n < (r + 1) * (r + 1),
{
    let mut r: u64 = 0;
    loop
        invariant
            n <= 4_000_000,
            r * r <= n,
            r <= n,
            root_from(n as int, r as int) == root(n as int),
        ensures
            r * r <= n,
            r >= n || (r + 1) * (r + 1) > n,
            root_from(n as int, r as int) == root(n as int),
        decreases n - r,
    {
        if r >= n {
            break;
        }
        assert(r + 1 <= 2001) by (nonlinear_arith)
            requires r * r <= n, n <= 4_000_000;
        assert((r + 1) * (r + 1) <= 2001 * 2001) by (nonlinear_arith)
            requires r + 1 <= 2001;
        if (r + 1) * (r + 1) > n {
            break;
        }
        r = r + 1;
    }
    proof {
        lemma_root_from(n as int, r as int);
    }
    r
}

/// `n / d` rounded toward zero.
pub open spec fn div_toward_zero(n: int, d: int) -> int {
    if n >= 0 {
        n / d
    } else {
        -((-n) / d)
    }
}

/// The unit direction of `(bias, -1)`, in fixed point, where `bias` is a
/// fixed-point horizontal component in `[-1, 1]`.
pub open spec fn launch_dir(bias: int) -> Dir {
    let len = root(bias * bias + DIR_ONE * DIR_ONE);
    Dir {
        x: div_toward_zero(bias * DIR_ONE, len) as i64,
        y: (-((DIR_ONE * DIR_ONE) / len)) as i64,
    }
}

/// A ball.
#[derive(Clone, Copy, Debug, PartialEq, Eq, Structural)]
pub struct Ball {
    pub rect: Rect,
    pub vel: Dir,
}

impl Ball {
    pub open spec fn wf(self) -> bool {
        self.rect.wf() && self.rect.w == BALL_SIZE && self.rect.h == BALL_SIZE && self.vel.wf()
    }

    /// The ball at `(x, y)` launched with horizontal bias `bias`.
    pub open spec fn launched(x: i64, y: i64, bias: int) -> Ball {
        Ball { rect: Rect { x, y, w: BALL_SIZE, h: BALL_SIZE }, vel: launch_dir(bias) }
    }

    /// The ball after `dt_us` microseconds of travel on a screen `screen_w`
    /// wide: it moves along its direction, then turns right if past the left
    /// wall, left if past the right wall, and down if above the top.
    pub open spec fn moved(self, dt_us: u32, screen_w: i64) -> Ball {
        let x = clamp_world(self.rect.x + travel(self.vel.x as int, dt_us as int, BALL_SPEED as int));
        let y = clamp_world(self.rect.y + travel(self.vel.y as int, dt_us as int, BALL_SPEED as int));
        let vx: i64 = if x > screen_w - BALL_SIZE {
            (-DIR_ONE) as i64
        } else if x < 0 {
            DIR_ONE
        } else {
            self.vel.x
        };
        let vy: i64 = if y < 0 {
            DIR_ONE
        } else {
            self.vel.y
        };
        Ball { rect: Rect { x: x as i64, y: y as i64, ..self.rect }, vel: Dir { x: vx, y: vy } }
    }

    /// A ball at `(x, y)` heading up, with horizontal bias `bias` (fixed
    /// point, `DIR_ONE` is 1), its direction scaled to unit length.
    pub fn with_bias(x: i64, y: i64, bias: i32) -> (r: Ball)
        requires
            in_world(x as int),
            in_world(y as int),
            -DIR_ONE <= bias <= DIR_ONE,
        ensures
            r == Ball::launched(x, y, bias as int),
            r.wf(),
            r.vel.y < 0,
    {
        let b: i64 = bias as i64;
        let mag: i64 = if b >= 0 { b } else { -b };
        assert(mag * mag <= 1_000_000) by (nonlinear_arith)
            requires 0 <= mag <= 1000;
        assert(b * b == mag * mag) by (nonlinear_arith)
            requires mag == b || mag == -b;
        let len: u64 = isqrt((mag * mag + DIR_ONE * DIR_ONE) as u64);
        assert(len >= 1000) by (nonlinear_arith)
            requires len * len <= mag * mag + 1_000_000 < (len + 1) * (len + 1), 0 <= len;
        assert(len <= 1415) by (nonlinear_arith)
            requires len * len <= mag * mag + 1_000_000, mag * mag <= 1_000_000, 0 <= len;
        let l: i64 = len as i64;
        let q: i64 = mag * DIR_ONE / l;
        assert(q <= 1000) by (nonlinear_arith)
            requires q == (mag * 1000) as int / (l as int), 0 <= mag <= 1000, l >= 1000;
        let vx: i64 = if b >= 0 { q } else { -q };
        let vy: i64 = -(DIR_ONE * DIR_ONE / l);
        assert(vy < 0 && vy >= -1000) by (nonlinear_arith)
            requires vy == -(1_000_000int / (l as int)), 1000 <= l <= 1415;
        Ball { rect: Rect::new(x, y, BALL_SIZE, BALL_SIZE), vel: Dir { x: vx, y: vy } }
    }

    /// A ball at `(x, y)` heading up with a random horizontal bias.
    pub fn new(x: i64, y: i64) -> (r: Ball)
        requires
            in_world(x as int),
            in_world(y as int),
        ensures
            exists|bias: int| -DIR_ONE <= bias <= DIR_ONE && r == Ball::launched(x, y, bias),
            r.rect == (Rect { x, y, w: BALL_SIZE, h: BALL_SIZE }),
            r.wf(),
            r.vel.y < 0,
    {
        let bias = random_between(-1000, 1000);
        Ball::with_bias(x, y, bias)
    }

    /// Moves the ball for `dt_us` microseconds and turns it at the left,
    /// right and top walls of a screen `screen_w` wide.
    pub fn update(&mut self, dt_us: u32, screen_w: i64)
        requires
            old(self).wf(),
            0 <= screen_w <= WORLD_LIMIT,
        ensures
            *final(self) == old(self).moved(dt_us, screen_w),
            final(self).wf(),
            final(self).rect.x < 0 && screen_w >= BALL_SIZE ==> final(self).vel.x == DIR_ONE,
            final(self).rect.x > screen_w - BALL_SIZE ==> final(self).vel.x == -DIR_ONE,
            final(self).rect.y < 0 ==> final(self).vel.y == DIR_ONE,
    {
        let dx = travel_of(self.vel.x, dt_us, BALL_SPEED);
        let dy = travel_of(self.vel.y, dt_us, BALL_SPEED);
        self.rect.x = clamp_to_world(self.rect.x + dx);
        self.rect.y = clamp_to_world(self.rect.y + dy);
        if self.rect.x < 0 {
            self.vel.x = DIR_ONE;
        }
        if self.rect.x > screen_w - BALL_SIZE {
            self.vel.x = -DIR_ONE;
        }
        if self.rect.y < 0 {
            self.vel.y = DIR_ONE;
        }
    }
}

} // verus!

use vstd::prelude::*;

use crate::collision::{resolve, resolve_collision};
use crate::entities::{
    Ball, Block, Player, BALL_SIZE, BLOCK_HEIGHT, BLOCK_LIVES, BLOCK_WIDTH,
};
use crate::geometry::{overlaps, Rect, WORLD_LIMIT};

verus! {

/// Blocks in one row of the board.
pub const BOARD_COLUMNS: usize = 6;
/// Rows of blocks on the board.
pub const BOARD_ROWS: usize = 6;
/// Gap between neighbouring blocks, in units.
pub const BLOCK_PADDING: i64 = 5_000;
/// Distance from the top of the screen to the board, in units.
pub const BOARD_TOP: i64 = 50_000;

/// The ball after it has met each block of `blocks` in turn, and the
/// blocks after it: each block it struck has lost a life.
pub open spec fn sweep(ball: Ball, blocks: Seq<Block>) -> (Ball, Seq<Block>)
    decreases blocks.len(),
{
    if blocks.len() == 0 {
        (ball, blocks)
    } else {
        let (b, done) = sweep(ball, blocks.drop_last());
        let block = blocks.last();
        let (rect, vel, hit) = resolve(b.rect, b.vel, block.rect);
        (Ball { rect, vel }, done.push(if hit { block.struck() } else { block }))
    }
}

/// Each ball of `balls` in turn bounces off the paddle and then sweeps the
/// blocks as the previous balls left them: the balls and the blocks after.
pub open spec fn collide_all(balls: Seq<Ball>, paddle: Rect, blocks: Seq<Block>) -> (
    Seq<Ball>,
    Seq<Block>,
)
    decreases balls.len(),
{
    if balls.len() == 0 {
        (balls, blocks)
    } else {
        let (done, left) = collide_all(balls.drop_last(), paddle, blocks);
        let b = balls.last();
        let (rect, vel, _) = resolve(b.rect, b.vel, paddle);
        let (out, after) = sweep(Ball { rect, vel }, left);
        (done.push(out), after)
    }
}

/// Whether a block still has a life.
pub open spec fn alive_pred() -> spec_fn(Block) -> bool {
    |b: Block| b.alive()
}

/// The blocks that still have a life, in their order.
pub open spec fn survivors(blocks: Seq<Block>) -> Seq<Block> {
    blocks.filter(alive_pred())
}

/// Every ball after `dt_us` microseconds of travel.
pub open spec fn moved_balls(balls: Seq<Ball>, dt_us: u32, screen_w: i64) -> Seq<Ball> {
    balls.map_values(|b: Ball| b.moved(dt_us, screen_w))
}

/// Left edge of the board on a screen `screen_w` wide: the board is centred.
pub open spec fn board_left(screen_w: int) -> int {
    screen_w / 2 - (BOARD_COLUMNS * (BLOCK_WIDTH + BLOCK_PADDING)) / 2
}

/// The `i`-th block of a fresh board, in row-major order.
pub open spec fn board_block(screen_w: int, i: int) -> Block {
    Block {
        rect: Rect {
            x: (board_left(screen_w) + (i % BOARD_COLUMNS as int) * (BLOCK_WIDTH + BLOCK_PADDING)) as i64,
            y: (BOARD_TOP + (i / BOARD_COLUMNS as int) * (BLOCK_HEIGHT + BLOCK_PADDING)) as i64,
            w: BLOCK_WIDTH,
            h: BLOCK_HEIGHT,
        },
        lives: BLOCK_LIVES,
    }
}

/// The ball that a new one is launched as: at the centre of the screen,
/// heading up.
pub open spec fn launched_at_center(b: Ball, screen_w: i64, screen_h: i64) -> bool {
    &&& b.wf()
    &&& b.rect == (Rect { x: (screen_w / 2) as i64, y: (screen_h / 2) as i64, w: BALL_SIZE, h: BALL_SIZE })
    &&& b.vel.y < 0
}

pub open spec fn screen_ok(screen_w: i64, screen_h: i64) -> bool {
    0 <= screen_w <= WORLD_LIMIT && 0 <= screen_h <= WORLD_LIMIT
}


proof fn lemma_sweep_shape(ball: Ball, blocks: Seq<Block>)
    ensures
        sweep(ball, blocks).1.len() == blocks.len(),
        forall|k: int|
            0 <= k < blocks.len() ==> (#[trigger] sweep(ball, blocks).1[k]).rect == blocks[k].rect,
    decreases blocks.len(),
{
    if blocks.len() > 0 {
        lemma_sweep_shape(ball, blocks.drop_last());
    }
}

proof fn lemma_collide_len(balls: Seq<Ball>, paddle: Rect, blocks: Seq<Block>)
    ensures
        collide_all(balls, paddle, blocks).0.len() == balls.len(),
    decreases balls.len(),
{
    if balls.len() > 0 {
        lemma_collide_len(balls.drop_last(), paddle, blocks);
    }
}


/// A ball sweeping the blocks takes exactly one life from each block it
/// strikes (the resolver reports an overlap with it, as the ball stands
/// when it reaches that block) and leaves every other block as it was.
pub proof fn lemma_struck_block_loses_one_life(ball: Ball, blocks: Seq<Block>, k: int)
    requires
        0 <= k < blocks.len(),
    ensures
        ({
            let reached = sweep(ball, blocks.take(k)).0;
            let hit = resolve(reached.rect, reached.vel, blocks[k].rect).2;
            &&& sweep(ball, blocks).1[k] == if hit {
                blocks[k].struck()
            } else {
                blocks[k]
            }
            &&& hit && blocks[k].lives > i32::MIN ==> sweep(ball, blocks).1[k].lives == blocks[k].lives
                - 1
        }),
    decreases blocks.len(),
{
    lemma_sweep_shape(ball, blocks.drop_last());
    if k == blocks.len() - 1 {
        assert(blocks.drop_last() =~= blocks.take(k));
    } else {
        assert(blocks.drop_last().take(k) =~= blocks.take(k));
        lemma_struck_block_loses_one_life(ball, blocks.drop_last(), k);
    }
}

/// After removal, every block left has a life; every block that had one is
/// still there, and every block without one is gone.
pub proof fn lemma_spent_blocks_removed(blocks: Seq<Block>)
    ensures
        forall|i: int| 0 <= i < survivors(blocks).len() ==> (#[trigger] survivors(blocks)[i]).alive(),
        forall|i: int|
            0 <= i < blocks.len() && blocks[i].alive() ==> survivors(blocks).contains(
                #[trigger] blocks[i],
            ),
        forall|i: int|
            0 <= i < blocks.len() && !blocks[i].alive() ==> !survivors(blocks).contains(
                #[trigger] blocks[i],
            ),
{
    broadcast use vstd::seq_lib::group_filter_ensures;

    assert forall|i: int| 0 <= i < blocks.len() && !blocks[i].alive() implies !survivors(
        blocks,
    ).contains(#[trigger] blocks[i]) by {
        if survivors(blocks).contains(blocks[i]) {
            let j = choose|j: int| 0 <= j < survivors(blocks).len() && survivors(blocks)[j] == blocks[i];
            blocks.lemma_filter_pred(alive_pred(), j);
        }
    }
}

/// Removal keeps the survivors in their order: the survivors of two runs of
/// blocks set one after the other are the survivors of each, in turn.
pub proof fn lemma_survivors_keep_order(a: Seq<Block>, b: Seq<Block>)
    ensures
        survivors(a + b) == survivors(a) + survivors(b),
{
    Seq::filter_distributes_over_add(a, b, alive_pred());
}

proof fn lemma_sweep_untouched(ball: Ball, blocks: Seq<Block>)
    requires
        forall|j: int| 0 <= j < blocks.len() ==> !overlaps(ball.rect, #[trigger] blocks[j].rect),
    ensures
        sweep(ball, blocks) == (ball, blocks),
    decreases blocks.len(),
{
    if blocks.len() > 0 {
        lemma_sweep_untouched(ball, blocks.drop_last());
        assert(!overlaps(ball.rect, blocks[blocks.len() - 1].rect));
        assert(blocks.drop_last().push(blocks.last()) =~= blocks);
    }
}

proof fn lemma_all_alive_survive(blocks: Seq<Block>)
    requires
        forall|j: int| 0 <= j < blocks.len() ==> (#[trigger] blocks[j]).alive(),
    ensures
        survivors(blocks) == blocks,
    decreases blocks.len(),
{
    reveal(Seq::filter);
    if blocks.len() > 0 {
        lemma_all_alive_survive(blocks.drop_last());
        assert(blocks[blocks.len() - 1].alive());
        assert(blocks.drop_last().push(blocks.last()) =~= blocks);
    }
}

/// A frame in which no ball (as it stands after moving) overlaps the paddle
/// or any block leaves the balls, the blocks and their lives unchanged.
pub proof fn lemma_quiet_frame(balls: Seq<Ball>, paddle: Rect, blocks: Seq<Block>)
    requires
        forall|i: int| 0 <= i < balls.len() ==> !overlaps(#[trigger] balls[i].rect, paddle),
        forall|i: int, j: int|
            0 <= i < balls.len() && 0 <= j < blocks.len() ==> !overlaps(
                #[trigger] balls[i].rect,
                #[trigger] blocks[j].rect,
            ),
        forall|j: int| 0 <= j < blocks.len() ==> (#[trigger] blocks[j]).alive(),
    ensures
        collide_all(balls, paddle, blocks) == (balls, blocks),
        survivors(collide_all(balls, paddle, blocks).1) == blocks,
    decreases balls.len(),
{
    if balls.len() > 0 {
        let rest = balls.drop_last();
        assert forall|i: int, j: int| 0 <= i < rest.len() && 0 <= j < blocks.len() implies !overlaps(
            #[trigger] rest[i].rect,
            #[trigger] blocks[j].rect,
        ) by {
            assert(rest[i] == balls[i]);
        }
        assert forall|i: int| 0 <= i < rest.len() implies !overlaps(#[trigger] rest[i].rect, paddle) by {
            assert(rest[i] == balls[i]);
        }
        lemma_quiet_frame(rest, paddle, blocks);
        let last = balls.last();
        assert(!overlaps(balls[balls.len() - 1].rect, paddle));
        assert forall|j: int| 0 <= j < blocks.len() implies !overlaps(last.rect, #[trigger] blocks[j].rect) by {
            assert(!overlaps(balls[balls.len() - 1].rect, blocks[j].rect));
        }
        lemma_sweep_untouched(last, blocks);
        assert(rest.push(last) =~= balls);
    }
    lemma_all_alive_survive(blocks);
}

/// What the player does in one frame, and the screen it is played on.
#[derive(Clone, Copy, Debug, PartialEq, Eq, Structural)]
pub struct Controls {
    /// The left key is held.
    pub left: bool,
    /// The right key is held.
    pub right: bool,
    /// A new ball is asked for.
    pub spawn: bool,
    /// Time since the last frame, in microseconds.
    pub dt_us: u32,
    /// Screen width, in units.
    pub screen_w: i64,
    /// Screen height, in units.
    pub screen_h: i64,
}

/// The whole game: the paddle, the blocks left, and the balls in play.
pub struct Game {
    pub player: Player,
    pub blocks: Vec<Block>,
    pub balls: Vec<Ball>,
}

impl Game {
    pub open spec fn wf(&self) -> bool {
        &&& self.player.wf()
        &&& forall|i: int| 0 <= i < self.balls@.len() ==> #[trigger] self.balls@[i].wf()
        &&& forall|i: int|
            0 <= i < self.blocks@.len() ==> #[trigger] self.blocks@[i].wf()
                && self.blocks@[i].alive()
    }

    /// Moves every ball for `dt_us` microseconds on a screen `screen_w` wide.
    fn move_balls(&mut self, dt_us: u32, screen_w: i64)
        requires
            old(self).wf(),
            0 <= screen_w <= WORLD_LIMIT,
        ensures
            final(self).wf(),
            final(self).player == old(self).player,
            final(self).blocks@ == old(self).blocks@,
            final(self).balls@ == moved_balls(old(self).balls@, dt_us, screen_w),
    {
        let ghost start = self.balls@;
        let mut i: usize = 0;
        while i < self.balls.len()
            invariant
                0 <= i <= self.balls@.len(),
                self.balls@.len() == start.len(),
                0 <= screen_w <= WORLD_LIMIT,
                self.player == old(self).player,
                self.blocks@ == old(self).blocks@,
                start == old(self).balls@,
                old(self).wf(),
                forall|k: int| 0 <= k < i ==> self.balls@[k] == #[trigger] start[k].moved(dt_us, screen_w),
                forall|k: int| i <= k < start.len() ==> self.balls@[k] == #[trigger] start[k],
                forall|k: int| 0 <= k < start.len() ==> #[trigger] self.balls@[k].wf(),
            decreases start.len() - i,
        {
            let mut b = self.balls[i];
            b.update(dt_us, screen_w);
            self.balls.set(i, b);
            i = i + 1;
        }
        assert(self.balls@ =~= moved_balls(start, dt_us, screen_w));
    }

    /// Each ball in turn bounces off the paddle and then off each block;
    /// a block loses a life for each ball that strikes it.
    fn collide(&mut self)
        requires
            old(self).player.wf(),
            forall|i: int| 0 <= i < old(self).balls@.len() ==> #[trigger] old(self).balls@[i].wf(),
            forall|i: int| 0 <= i < old(self).blocks@.len() ==> #[trigger] old(self).blocks@[i].wf(),
        ensures
            final(self).player == old(self).player,
            (final(self).balls@, final(self).blocks@) == collide_all(
                old(self).balls@,
                old(self).player.rect,
                old(self).blocks@,
            ),
            forall|i: int| 0 <= i < final(self).balls@.len() ==> #[trigger] final(self).balls@[i].wf(),
            final(self).blocks@.len() == old(self).blocks@.len(),
            forall|i: int|
                0 <= i < final(self).blocks@.len() ==> (#[trigger] final(self).blocks@[i]).rect
                    == old(self).blocks@[i].rect,
    {
        let ghost balls0 = self.balls@;
        let ghost blocks0 = self.blocks@;
        let paddle = self.player.rect;
        let mut i: usize = 0;
        while i < self.balls.len()
            invariant
                0 <= i <= balls0.len(),
                self.balls@.len() == balls0.len(),
                self.blocks@.len() == blocks0.len(),
                self.player == old(self).player,
                paddle == self.player.rect,
                paddle.wf(),
                balls0 == old(self).balls@,
                blocks0 == old(self).blocks@,
                forall|k: int| 0 <= k < balls0.len() ==> #[trigger] balls0[k].wf(),
                forall|k: int| 0 <= k < blocks0.len() ==> #[trigger] blocks0[k].wf(),
                forall|k: int| 0 <= k < self.balls@.len() ==> #[trigger] self.balls@[k].wf(),
                forall|k: int|
                    0 <= k < self.blocks@.len() ==> (#[trigger] self.blocks@[k]).rect == blocks0[k].rect,
                self.balls@ == collide_all(balls0.take(i as int), paddle, blocks0).0 + balls0.skip(
                    i as int,
                ),
                self.blocks@ == collide_all(balls0.take(i as int), paddle, blocks0).1,
            decreases balls0.len() - i,
        {
            let mut ball = self.balls[i];
            assert(self.balls@[i as int].wf());
            let _ = resolve_collision(&mut ball.rect, &mut ball.vel, &paddle);
            let ghost met = ball;
            let ghost blocks_in = self.blocks@;
            let ghost balls_now = self.balls@;
            let mut j: usize = 0;
            while j < self.blocks.len()
                invariant
                    0 <= j <= blocks_in.len(),
                    self.blocks@.len() == blocks_in.len(),
                    blocks_in.len() == blocks0.len(),
                    ball.wf(),
                    self.balls@ == balls_now,
                    self.player == old(self).player,
                    forall|k: int| 0 <= k < blocks0.len() ==> #[trigger] blocks0[k].wf(),
                    forall|k: int|
                        0 <= k < blocks_in.len() ==> (#[trigger] blocks_in[k]).rect == blocks0[k].rect,
                    forall|k: int|
                        0 <= k < self.blocks@.len() ==> (#[trigger] self.blocks@[k]).rect
                            == blocks0[k].rect,
                    ball == sweep(met, blocks_in.take(j as int)).0,
                    self.blocks@ == sweep(met, blocks_in.take(j as int)).1 + blocks_in.skip(j as int),
                decreases blocks_in.len() - j,
            {
                let mut block = self.blocks[j];
                proof {
                    lemma_sweep_shape(met, blocks_in.take(j as int));
                    assert(blocks_in.take(j as int + 1).drop_last() =~= blocks_in.take(j as int));
                    assert(block == blocks_in[j as int]);
                    assert(block.rect.wf()) by {
                        assert(blocks0[j as int].wf());
                    }
                }
                let ghost before = self.blocks@;
                if resolve_collision(&mut ball.rect, &mut ball.vel, &block.rect) {
                    block.strike();
                    self.blocks.set(j, block);
                }
                proof {
                    let s = sweep(met, blocks_in.take(j as int + 1));
                    assert(ball == s.0);
                    assert(self.blocks@ =~= s.1 + blocks_in.skip(j as int + 1));
                }
                j = j + 1;
            }
            proof {
                assert(blocks_in.take(j as int) =~= blocks_in);
                lemma_collide_len(balls0.take(i as int), paddle, blocks0);
                assert(balls0.take(i as int + 1).drop_last() =~= balls0.take(i as int));
            }
            self.balls.set(i, ball);
            proof {
                let c = collide_all(balls0.take(i as int + 1), paddle, blocks0);
                assert(self.balls@ =~= c.0 + balls0.skip(i as int + 1));
            }
            i = i + 1;
        }
        proof {
            assert(balls0.take(i as int) =~= balls0);
            lemma_collide_len(balls0, paddle, blocks0);
            assert(self.balls@ =~= collide_all(balls0, paddle, blocks0).0);
        }
    }

    /// Drops every block without a life left; the others keep their order.
    pub fn remove_spent(&mut self)
        requires
            forall|i: int| 0 <= i < old(self).blocks@.len() ==> #[trigger] old(self).blocks@[i].wf(),
        ensures
            forall|i: int|
                0 <= i < final(self).blocks@.len() ==> #[trigger] final(self).blocks@[i].wf()
                    && final(self).blocks@[i].alive(),
            final(self).player == old(self).player,
            final(self).balls@ == old(self).balls@,
            final(self).blocks@ == survivors(old(self).blocks@),
    {
        let ghost start = self.blocks@;
        let mut kept: Vec<Block> = Vec::new();
        let mut j: usize = 0;
        while j < self.blocks.len()
            invariant
                0 <= j <= start.len(),
                self.blocks@ == start,
                start == old(self).blocks@,
                kept@ == survivors(start.take(j as int)),
                forall|i: int| 0 <= i < start.len() ==> #[trigger] start[i].wf(),
                forall|i: int| 0 <= i < kept@.len() ==> #[trigger] kept@[i].wf() && kept@[i].alive(),
            decreases start.len() - j,
        {
            let block = self.blocks[j];
            proof {
                assert(start.take(j as int + 1).drop_last() =~= start.take(j as int));
                reveal(Seq::filter);
                assert(block.wf()) by {
                    assert(start[j as int].wf());
                }
            }
            if block.lives > 0 {
                kept.push(block);
            }
            j = j + 1;
        }
        proof {
            assert(start.take(j as int) =~= start);
        }
        self.blocks = kept;
    }

    /// Plays one frame after any new ball has been added: the paddle
    /// follows the keys, every ball moves, the balls bounce off the paddle
    /// and the blocks, and the blocks without a life left are removed.
    pub fn advance(&mut self, left: bool, right: bool, dt_us: u32, screen_w: i64)
        requires
            old(self).wf(),
            0 <= screen_w <= WORLD_LIMIT,
        ensures
            final(self).wf(),
            final(self).player == old(self).player.steered(left, right, dt_us, screen_w),
            final(self).balls@ == collide_all(
                moved_balls(old(self).balls@, dt_us, screen_w),
                final(self).player.rect,
                old(self).blocks@,
            ).0,
            final(self).blocks@ == survivors(
                collide_all(
                    moved_balls(old(self).balls@, dt_us, screen_w),
                    final(self).player.rect,
                    old(self).blocks@,
                ).1,
            ),
    {
        self.player.update(left, right, dt_us, screen_w);
        self.move_balls(dt_us, screen_w);
        let ghost collided_from = self.blocks@;
        self.collide();
        proof {
            assert forall|i: int| 0 <= i < self.blocks@.len() implies #[trigger] self.blocks@[i].wf() by {
                assert(collided_from[i].wf());
            }
        }
        self.remove_spent();
    }

    /// A fresh game on a screen `screen_w` by `screen_h` units: the paddle
    /// centred at the bottom, a full board of blocks, and one ball at the
    /// centre heading up.
    pub fn new(screen_w: i64, screen_h: i64) -> (r: Game)
        requires
            screen_ok(screen_w, screen_h),
        ensures
            r.wf(),
            r.player == Player::new_at(screen_w, screen_h),
            r.blocks@.len() == BOARD_COLUMNS * BOARD_ROWS,
            forall|i: int| 0 <= i < r.blocks@.len() ==> #[trigger] r.blocks@[i] == board_block(screen_w as int, i),
            r.balls@.len() == 1,
            launched_at_center(r.balls@[0], screen_w, screen_h),
    {
        let player = Player::new(screen_w, screen_h);
        let left: i64 = screen_w / 2 - (BOARD_COLUMNS as i64 * (BLOCK_WIDTH + BLOCK_PADDING)) / 2;
        let mut blocks: Vec<Block> = Vec::new();
        let mut i: usize = 0;
        while i < BOARD_COLUMNS * BOARD_ROWS
            invariant
                0 <= i <= BOARD_COLUMNS * BOARD_ROWS,
                0 <= screen_w <= WORLD_LIMIT,
                left == board_left(screen_w as int),
                blocks@.len() == i,
                forall|k: int| 0 <= k < i ==> #[trigger] blocks@[k] == board_block(screen_w as int, k),
            decreases BOARD_COLUMNS * BOARD_ROWS - i,
        {
            let x: i64 = left + (i % BOARD_COLUMNS) as i64 * (BLOCK_WIDTH + BLOCK_PADDING);
            let y: i64 = BOARD_TOP + (i / BOARD_COLUMNS) as i64 * (BLOCK_HEIGHT + BLOCK_PADDING);
            blocks.push(Block::new(x, y));
            i = i + 1;
        }
        let mut balls: Vec<Ball> = Vec::new();
        balls.push(Ball::new(screen_w / 2, screen_h / 2));
        Game { player, blocks, balls }
    }

    /// Adds a ball at the centre of the screen, heading up.
    pub fn spawn_ball(&mut self, screen_w: i64, screen_h: i64)
        requires
            old(self).wf(),
            screen_ok(screen_w, screen_h),
        ensures
            final(self).wf(),
            final(self).player == old(self).player,
            final(self).blocks@ == old(self).blocks@,
            final(self).balls@.len() == old(self).balls@.len() + 1,
            final(self).balls@.drop_last() == old(self).balls@,
            launched_at_center(final(self).balls@.last(), screen_w, screen_h),
    {
        self.balls.push(Ball::new(screen_w / 2, screen_h / 2));
        assert(self.balls@.drop_last() =~= old(self).balls@);
    }

    /// Plays one frame of `c`: first a new ball if one is asked for, then
    /// [`Game::advance`].
    pub fn frame(&mut self, c: &Controls)
        requires
            old(self).wf(),
            screen_ok(c.screen_w, c.screen_h),
        ensures
            final(self).wf(),
            final(self).player == old(self).player.steered(c.left, c.right, c.dt_us, c.screen_w),
            !c.spawn ==> final(self).balls@ == collide_all(
                moved_balls(old(self).balls@, c.dt_us, c.screen_w),
                final(self).player.rect,
                old(self).blocks@,
            ).0 && final(self).blocks@ == survivors(
                collide_all(
                    moved_balls(old(self).balls@, c.dt_us, c.screen_w),
                    final(self).player.rect,
                    old(self).blocks@,
                ).1,
            ),
            c.spawn ==> exists|b: Ball|
                #[trigger] launched_at_center(b, c.screen_w, c.screen_h) && final(self).balls@
                    == collide_all(
                    moved_balls(old(self).balls@.push(b), c.dt_us, c.screen_w),
                    final(self).player.rect,
                    old(self).blocks@,
                ).0 && final(self).blocks@ == survivors(
                    collide_all(
                        moved_balls(old(self).balls@.push(b), c.dt_us, c.screen_w),
                        final(self).player.rect,
                        old(self).blocks@,
                    ).1,
                ),
    {
        if c.spawn {
            self.spawn_ball(c.screen_w, c.screen_h);
            let ghost b = self.balls@.last();
            assert(self.balls@ =~= old(self).balls@.push(b));
            self.advance(c.left, c.right, c.dt_us, c.screen_w);
            assert(launched_at_center(b, c.screen_w, c.screen_h));
        } else {
            self.advance(c.left, c.right, c.dt_us, c.screen_w);
        }
    }
}

} // verus!

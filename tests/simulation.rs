use breakout::entities::{isqrt, BALL_SIZE, BLOCK_HEIGHT, BLOCK_LIVES, BLOCK_WIDTH, PLAYER_WIDTH};
use breakout::game::{Controls, Game};
use breakout::{resolve_collision, Ball, Block, Dir, Player, Rect, Tint, DIR_ONE};

const SCREEN_W: i64 = 800_000;
const SCREEN_H: i64 = 600_000;

fn ball_at(x: i64, y: i64, vx: i64, vy: i64) -> Ball {
    Ball { rect: Rect::new(x, y, BALL_SIZE, BALL_SIZE), vel: Dir { x: vx, y: vy } }
}

#[test]
fn resolve_leaves_apart_rectangles_alone() {
    let mut a = Rect::new(0, 0, 20_000, 20_000);
    let mut v = Dir { x: 600, y: -800 };
    let b = Rect::new(100_000, 100_000, 90_000, 40_000);
    assert!(!resolve_collision(&mut a, &mut v, &b));
    assert_eq!(a, Rect::new(0, 0, 20_000, 20_000));
    assert_eq!(v, Dir { x: 600, y: -800 });
}

#[test]
fn resolve_wide_overlap_bounces_vertically() {
    let mut a = Rect::new(120_000, 120_000, 20_000, 20_000);
    let mut v = Dir { x: 600, y: 800 };
    let b = Rect::new(110_000, 130_000, 90_000, 40_000);
    assert!(resolve_collision(&mut a, &mut v, &b));
    assert_eq!(a, Rect::new(120_000, 110_000, 20_000, 20_000));
    assert_eq!(v, Dir { x: 600, y: -800 });
}

#[test]
fn resolve_tall_overlap_bounces_horizontally_away() {
    let mut a = Rect::new(95_000, 100_000, 20_000, 20_000);
    let mut v = Dir { x: 600, y: -800 };
    let b = Rect::new(110_000, 90_000, 90_000, 40_000);
    assert!(resolve_collision(&mut a, &mut v, &b));
    assert_eq!(a, Rect::new(90_000, 100_000, 20_000, 20_000));
    assert_eq!(v, Dir { x: -600, y: -800 });
}

#[test]
fn resolve_from_below_pushes_down() {
    let mut a = Rect::new(150_000, 310_000, 20_000, 20_000);
    let mut v = Dir { x: 0, y: -1000 };
    let b = Rect::new(115_000, 275_000, 90_000, 40_000);
    assert!(resolve_collision(&mut a, &mut v, &b));
    assert_eq!(a.y, 315_000);
    assert_eq!(v, Dir { x: 0, y: 1000 });
}

#[test]
fn resolve_counts_touching_edges() {
    let mut a = Rect::new(0, 0, 20_000, 20_000);
    let mut v = Dir { x: 1000, y: 0 };
    let b = Rect::new(20_000, 0, 20_000, 20_000);
    assert!(resolve_collision(&mut a, &mut v, &b));
    assert_eq!(a, Rect::new(0, 0, 20_000, 20_000));
    assert_eq!(v, Dir { x: -1000, y: 0 });
}

#[test]
fn intersect_gives_shared_region() {
    let a = Rect::new(0, 0, 50_000, 50_000);
    let b = Rect::new(30_000, 40_000, 50_000, 50_000);
    assert_eq!(a.intersect(&b), Some(Rect::new(30_000, 40_000, 20_000, 10_000)));
    let c = Rect::new(60_000, 0, 10_000, 10_000);
    assert_eq!(a.intersect(&c), None);
}

#[test]
fn player_starts_centred_near_bottom() {
    let p = Player::new(SCREEN_W, SCREEN_H);
    assert_eq!(p.rect, Rect::new(325_000, 500_000, 150_000, 40_000));
}

#[test]
fn player_moves_by_keys() {
    let mut p = Player::new(SCREEN_W, SCREEN_H);
    p.update(false, true, 100_000, SCREEN_W);
    assert_eq!(p.rect.x, 395_000);
    p.update(true, false, 50_000, SCREEN_W);
    assert_eq!(p.rect.x, 360_000);
    p.update(true, true, 50_000, SCREEN_W);
    assert_eq!(p.rect.x, 360_000);
}

#[test]
fn player_is_clamped_to_screen() {
    let mut p = Player::new(SCREEN_W, SCREEN_H);
    p.update(true, false, 10_000_000, SCREEN_W);
    assert_eq!(p.rect.x, 0);
    p.update(false, true, u32::MAX, SCREEN_W);
    assert_eq!(p.rect.x, SCREEN_W - PLAYER_WIDTH);
    assert!(p.rect.x >= 0 && p.rect.x <= SCREEN_W - PLAYER_WIDTH);
}

#[test]
fn player_follows_mouse_within_screen() {
    let mut p = Player::new(SCREEN_W, SCREEN_H);
    p.follow_mouse(400_000, SCREEN_W);
    assert_eq!(p.rect.x, 325_000);
    p.follow_mouse(10, SCREEN_W);
    assert_eq!(p.rect.x, 0);
    p.follow_mouse(-5_000_000, SCREEN_W);
    assert_eq!(p.rect.x, 0);
    p.follow_mouse(1_000_000_000, SCREEN_W);
    assert_eq!(p.rect.x, 650_000);
}

#[test]
fn integer_square_root() {
    assert_eq!(isqrt(0), 0);
    assert_eq!(isqrt(1), 1);
    assert_eq!(isqrt(1_000_000), 1000);
    assert_eq!(isqrt(2_000_000), 1414);
    assert_eq!(isqrt(1_999_999), 1414);
}

#[test]
fn ball_launch_direction_is_unit_and_upward() {
    let straight = Ball::with_bias(100, 200, 0);
    assert_eq!(straight.rect, Rect::new(100, 200, BALL_SIZE, BALL_SIZE));
    assert_eq!(straight.vel, Dir { x: 0, y: -1000 });
    let diagonal = Ball::with_bias(0, 0, 1000);
    assert_eq!(diagonal.vel, Dir { x: 707, y: -707 });
    let leftward = Ball::with_bias(0, 0, -1000);
    assert_eq!(leftward.vel, Dir { x: -707, y: -707 });
    let slight = Ball::with_bias(0, 0, 500);
    assert_eq!(slight.vel, Dir { x: 447, y: -894 });
}

#[test]
fn random_ball_heads_up_from_its_place() {
    for _ in 0..50 {
        let b = Ball::new(400_000, 300_000);
        assert_eq!(b.rect, Rect::new(400_000, 300_000, BALL_SIZE, BALL_SIZE));
        assert!(b.vel.y < 0 && b.vel.y >= -DIR_ONE);
        assert!(b.vel.x >= -DIR_ONE && b.vel.x <= DIR_ONE);
    }
}

#[test]
fn ball_travels_along_its_direction() {
    let mut b = ball_at(100_000, 100_000, 0, -1000);
    b.update(100_000, SCREEN_W);
    assert_eq!(b, ball_at(100_000, 50_000, 0, -1000));
    let mut c = ball_at(100_000, 100_000, -707, 707);
    c.update(16_000, SCREEN_W);
    assert_eq!(c, ball_at(94_344, 105_656, -707, 707));
}

#[test]
fn ball_turns_at_left_wall() {
    let mut b = ball_at(10_000, 100_000, -1000, 0);
    b.update(100_000, SCREEN_W);
    assert_eq!(b.rect.x, -40_000);
    assert_eq!(b.vel.x, 1000);
}

#[test]
fn ball_turns_at_right_wall() {
    let mut b = ball_at(790_000, 100_000, 600, 0);
    b.update(100_000, SCREEN_W);
    assert_eq!(b.rect.x, 820_000);
    assert_eq!(b.vel.x, -1000);
}

#[test]
fn ball_turns_at_top_wall() {
    let mut b = ball_at(100_000, 10_000, 0, -800);
    b.update(100_000, SCREEN_W);
    assert_eq!(b.rect.y, -30_000);
    assert_eq!(b.vel.y, 1000);
}

#[test]
fn ball_passes_out_at_bottom() {
    let mut b = ball_at(100_000, 590_000, 0, 1000);
    b.update(100_000, SCREEN_W);
    assert_eq!(b, ball_at(100_000, 640_000, 0, 1000));
}

#[test]
fn block_wears_down() {
    let mut b = Block::new(5, 6);
    assert_eq!(b.rect, Rect::new(5, 6, BLOCK_WIDTH, BLOCK_HEIGHT));
    assert_eq!(b.lives, BLOCK_LIVES);
    assert_eq!(b.tint(), Tint::Blue);
    b.strike();
    assert_eq!(b.lives, 1);
    assert_eq!(b.tint(), Tint::Red);
    b.strike();
    assert_eq!(b.lives, 0);
    assert_eq!(b.tint(), Tint::White);
}

#[test]
fn new_game_lays_out_board() {
    let g = Game::new(SCREEN_W, SCREEN_H);
    assert_eq!(g.blocks.len(), 36);
    assert_eq!(g.blocks[0].rect, Rect::new(115_000, 50_000, BLOCK_WIDTH, BLOCK_HEIGHT));
    assert_eq!(g.blocks[7].rect, Rect::new(210_000, 95_000, BLOCK_WIDTH, BLOCK_HEIGHT));
    assert_eq!(g.blocks[35].rect, Rect::new(590_000, 275_000, BLOCK_WIDTH, BLOCK_HEIGHT));
    assert!(g.blocks.iter().all(|b| b.lives == 2));
    assert_eq!(g.balls.len(), 1);
    assert_eq!(g.balls[0].rect, Rect::new(400_000, 300_000, BALL_SIZE, BALL_SIZE));
    assert!(g.balls[0].vel.y < 0);
    assert_eq!(g.player, Player::new(SCREEN_W, SCREEN_H));
}

#[test]
fn block_struck_twice_is_removed() {
    let mut g = Game::new(SCREEN_W, SCREEN_H);
    let target = g.blocks[30];
    let after = g.blocks[31];
    g.balls = vec![ball_at(150_000, 310_000, 0, -1000)];
    g.advance(false, false, 0, SCREEN_W);
    assert_eq!(g.blocks.len(), 36);
    assert_eq!(g.blocks[30].rect, target.rect);
    assert_eq!(g.blocks[30].lives, 1);
    assert_eq!(g.balls[0], ball_at(150_000, 315_000, 0, 1000));
    assert!(g.blocks.iter().enumerate().all(|(i, b)| i == 30 || b.lives == 2));

    g.balls[0] = ball_at(150_000, 310_000, 0, -1000);
    g.advance(false, false, 0, SCREEN_W);
    assert_eq!(g.blocks.len(), 35);
    assert!(g.blocks.iter().all(|b| b.rect != target.rect));
    assert_eq!(g.blocks[30], after);
}

#[test]
fn two_balls_in_one_frame_take_two_lives() {
    let mut g = Game::new(SCREEN_W, SCREEN_H);
    let target = g.blocks[30].rect;
    g.balls = vec![ball_at(150_000, 310_000, 0, -1000), ball_at(170_000, 310_000, 0, -1000)];
    g.advance(false, false, 0, SCREEN_W);
    assert_eq!(g.blocks.len(), 35);
    assert!(g.blocks.iter().all(|b| b.rect != target));
}

#[test]
fn quiet_frame_keeps_blocks() {
    let mut g = Game::new(SCREEN_W, SCREEN_H);
    g.balls = vec![ball_at(20_000, 400_000, 1000, 0), ball_at(700_000, 420_000, -600, 800)];
    let before = g.blocks.clone();
    g.advance(false, false, 16_000, SCREEN_W);
    assert_eq!(g.blocks, before);
    assert_eq!(g.balls[0], ball_at(28_000, 400_000, 1000, 0));
    assert_eq!(g.balls[1], ball_at(695_200, 426_400, -600, 800));
}

#[test]
fn ball_bounces_off_paddle() {
    let mut g = Game::new(SCREEN_W, SCREEN_H);
    g.balls = vec![ball_at(390_000, 485_000, 0, 1000)];
    g.advance(false, false, 0, SCREEN_W);
    assert_eq!(g.balls[0], ball_at(390_000, 480_000, 0, -1000));
    assert_eq!(g.blocks.len(), 36);
}

#[test]
fn spawn_adds_one_ball_at_centre() {
    let mut g = Game::new(SCREEN_W, SCREEN_H);
    for n in 2..6 {
        g.spawn_ball(SCREEN_W, SCREEN_H);
        assert_eq!(g.balls.len(), n);
        let b = g.balls[n - 1];
        assert_eq!(b.rect, Rect::new(400_000, 300_000, BALL_SIZE, BALL_SIZE));
        assert!(b.vel.y < 0);
    }
    assert_eq!(g.blocks.len(), 36);
}

#[test]
fn frame_with_spawn_request() {
    let mut g = Game::new(SCREEN_W, SCREEN_H);
    g.balls.clear();
    let c = Controls {
        left: false,
        right: true,
        spawn: true,
        dt_us: 0,
        screen_w: SCREEN_W,
        screen_h: SCREEN_H,
    };
    g.frame(&c);
    assert_eq!(g.balls.len(), 1);
    assert_eq!(g.balls[0].rect.x, 400_000);
    let quiet = Controls { spawn: false, dt_us: 100_000, ..c };
    g.frame(&quiet);
    assert_eq!(g.balls.len(), 1);
    assert_eq!(g.player.rect.x, 395_000);
}

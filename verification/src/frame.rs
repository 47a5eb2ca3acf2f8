//! One render cycle: every enemy takes its step, the dead are removed, and
//! the player and the survivors are drawn on a fresh background, which is
//! then encoded for the display.

use vstd::prelude::*;
use crate::canvas::Canvas;
use crate::canvas::canvas_jpeg;
use crate::canvas::canvas_new;
use crate::canvas::jpeg_encoding;
use crate::canvas::rgb;
use crate::compose::Alter;
use crate::compose::SCALE_ONE;
use crate::compose::lemma_unit_scale;
use crate::scene::Object;
use crate::scene::alive;
use crate::scene::color_of;
use crate::scene::game_over;
use crate::scene::purge_dead;
use crate::scene::stepped;

verus! {

/// The width of a frame in pixels.
pub const WIDTH: usize = 500;

/// The height of a frame in pixels.
pub const HEIGHT: usize = 500;

/// The size of a frame.
pub open spec fn frame_size() -> (nat, nat) {
    (WIDTH as nat, HEIGHT as nat)
}

/// The base64 text of a byte string, in the standard alphabet with padding.
pub uninterp spec fn base64_text(bytes: Seq<u8>) -> Seq<char>;

/// `base64::encode`: the text of the bytes in the standard alphabet.
#[verifier::external_body]
#[allow(deprecated)]
fn base64_encode(bytes: &Vec<u8>) -> (result: String)
    ensures
        result@ == base64_text(bytes@),
{
    base64::encode(bytes)
}

/// A frame with every pixel in one colour.
fn background(color: [u8; 3]) -> (result: Canvas)
    ensures
        result.wf(),
        result.size() == frame_size(),
        forall|x: int, y: int| result.has(x, y) ==> #[trigger] result.cells()[(x, y)] == color,
{
    let mut canvas = canvas_new(500, 500);
    let mut x: u32 = 0;
    while x < 500
        invariant
            x <= 500,
            canvas.size() == frame_size(),
            forall|a: int, b: int|
                canvas.has(a, b) && a < x ==> #[trigger] canvas.cells()[(a, b)] == color,
        decreases 500 - x,
    {
        let mut y: u32 = 0;
        while y < 500
            invariant
                x < 500,
                y <= 500,
                canvas.size() == frame_size(),
                forall|a: int, b: int|
                    canvas.has(a, b) && (a < x || (a == x && b < y)) ==> #[trigger] canvas.cells()[(
                        a,
                        b,
                    )] == color,
            decreases 500 - y,
        {
            canvas.put_pixel(x, y, color);
            y += 1;
        }
        x += 1;
    }
    let _ = canvas.dimensions();
    canvas
}

/// A frame with every pixel black.
pub fn black_background() -> (result: Canvas)
    ensures
        result.wf(),
        result.size() == frame_size(),
        forall|x: int, y: int|
            result.has(x, y) ==> #[trigger] result.cells()[(x, y)] == rgb(0, 0, 0),
{
    background([0, 0, 0])
}

/// A frame with every pixel white.
pub fn white_background() -> (result: Canvas)
    ensures
        result.wf(),
        result.size() == frame_size(),
        forall|x: int, y: int|
            result.has(x, y) ==> #[trigger] result.cells()[(x, y)] == rgb(255, 255, 255),
{
    background([255, 255, 255])
}

/// The canvas as text for the display: the base64 text of its JPEG
/// encoding, or `None` where the encoder refuses the canvas.
pub fn render_string(image: &Canvas) -> (result: Option<String>)
    ensures
        match result {
            Some(text) => {
                &&& jpeg_encoding(image.size(), image.cells()) is Some
                &&& text@ == base64_text(jpeg_encoding(image.size(), image.cells())->Some_0)
            },
            None => jpeg_encoding(image.size(), image.cells()) is None,
        },
{
    match canvas_jpeg(image) {
        Some(bytes) => Some(base64_encode(&bytes)),
        None => None,
    }
}

/// The colour of pixel `(x, y)` of a white frame on which the objects are
/// drawn one after another: that of the last object drawn there.
pub open spec fn painted(objects: Seq<Object>, x: int, y: int) -> [u8; 3]
    decreases objects.len(),
{
    if objects.len() == 0 {
        rgb(255, 255, 255)
    } else if objects.last().paints(x, y) {
        color_of(objects.last().name)
    } else {
        painted(objects.drop_last(), x, y)
    }
}

/// The enemies after one cycle: each has taken its step towards the player,
/// and those without hit points are gone.
pub open spec fn advanced(player: Object, enemies: Seq<Object>) -> Seq<Object> {
    enemies.map_values(|e: Object| stepped(e, player)).filter(alive())
}

/// Draws one object on a frame.
fn paint(canvas: &mut Canvas, object: &Object)
    requires
        old(canvas).wf(),
        old(canvas).size() == frame_size(),
    ensures
        final(canvas).wf(),
        final(canvas).size() == frame_size(),
        forall|x: int, y: int|
            final(canvas).has(x, y) ==> #[trigger] final(canvas).cells()[(x, y)] == (if object.paints(
                x,
                y,
            ) {
                color_of(object.name)
            } else {
                old(canvas).cells()[(x, y)]
            }),
{
    let overlay = object.as_overlay(WIDTH, HEIGHT);
    proof {
        lemma_unit_scale(WIDTH as nat);
        lemma_unit_scale(HEIGHT as nat);
    }
    canvas.overlay(0, 0, SCALE_ONE, SCALE_ONE, &overlay);
    proof {
        assert forall|x: int, y: int| canvas.has(x, y) implies #[trigger] canvas.cells()[(x, y)]
            == (if object.paints(x, y) {
            color_of(object.name)
        } else {
            old(canvas).cells()[(x, y)]
        }) by {
            assert(overlay.in_bounds(x, y));
            assert(overlay.cell(x, y) == (if object.paints(x, y) {
                Some(color_of(object.name))
            } else {
                None
            }));
        }
    }
}

/// Advances the enemies by one cycle and says whether the game is over:
/// whether the player collided with an enemy before it moved.
pub fn advance(player: &Object, enemies: &mut Vec<Object>) -> (over: bool)
    requires
        player.in_world(),
        forall|i: int| 0 <= i < old(enemies)@.len() ==> (#[trigger] old(enemies)@[i]).in_world(),
    ensures
        over == exists|i: int|
            0 <= i < old(enemies)@.len() && player.collides(#[trigger] old(enemies)@[i]),
        final(enemies)@ == advanced(*player, old(enemies)@),
{
    let over = game_over(player, enemies);
    let mut i: usize = 0;
    while i < enemies.len()
        invariant
            player.in_world(),
            forall|k: int|
                0 <= k < old(enemies)@.len() ==> (#[trigger] old(enemies)@[k]).in_world(),
            enemies@.len() == old(enemies)@.len(),
            i <= enemies@.len(),
            forall|k: int| 0 <= k < i ==> #[trigger] enemies@[k] == stepped(old(enemies)@[k], *player),
            forall|k: int| i <= k < enemies@.len() ==> #[trigger] enemies@[k] == old(enemies)@[k],
        decreases enemies@.len() - i,
    {
        let mut enemy: Object = enemies[i];
        enemy.step_enemy_ai(player);
        enemies.set(i, enemy);
        i += 1;
    }
    proof {
        assert(enemies@ =~= old(enemies)@.map_values(|e: Object| stepped(e, *player)));
    }
    purge_dead(enemies);
    over
}

/// The frame of a scene: a white background with the player drawn on it and
/// then each enemy in turn.
pub fn render(player: &Object, enemies: &Vec<Object>) -> (result: Canvas)
    ensures
        result.wf(),
        result.size() == frame_size(),
        forall|x: int, y: int|
            result.has(x, y) ==> #[trigger] result.cells()[(x, y)] == painted(
                seq![*player] + enemies@,
                x,
                y,
            ),
{
    let mut canvas = white_background();
    paint(&mut canvas, player);
    proof {
        assert(seq![*player].drop_last() =~= Seq::<Object>::empty());
        assert forall|x: int, y: int| canvas.has(x, y) implies #[trigger] canvas.cells()[(x, y)]
            == painted(seq![*player] + enemies@.take(0), x, y) by {
            assert(seq![*player] + enemies@.take(0) =~= seq![*player]);
            assert(painted(Seq::<Object>::empty(), x, y) == rgb(255, 255, 255));
        }
    }
    let mut i: usize = 0;
    while i < enemies.len()
        invariant
            i <= enemies@.len(),
            canvas.wf(),
            canvas.size() == frame_size(),
            forall|x: int, y: int|
                canvas.has(x, y) ==> #[trigger] canvas.cells()[(x, y)] == painted(
                    seq![*player] + enemies@.take(i as int),
                    x,
                    y,
                ),
        decreases enemies@.len() - i,
    {
        paint(&mut canvas, &enemies[i]);
        proof {
            let drawn = seq![*player] + enemies@.take(i + 1);
            assert(drawn.drop_last() =~= seq![*player] + enemies@.take(i as int));
            assert(drawn.last() == enemies@[i as int]);
        }
        i += 1;
    }
    proof {
        assert(enemies@.take(i as int) =~= enemies@);
    }
    canvas
}

} // verus!

//! Building the game's sprites and animations from decoded images.

use vstd::prelude::*;
use std::sync::Arc;

use crate::agents::{idle_name, mining_name, ploughing_name, pool_ready, running_name};
use crate::animation::{Animation, AnimationPool};
use crate::render::{packed_at, Sprite, SPRITE_PIXELS};

verus! {

/// `s` is the sprite that `Sprite::new` makes of the image `rgba`.
pub open spec fn sprite_of(rgba: Seq<u8>, s: Sprite) -> bool {
    forall|i: int|
        0 <= i < SPRITE_PIXELS ==> s.pixels@[i] == if i < rgba.len() / 4 {
            packed_at(rgba, i)
        } else {
            0
        }
}

/// The image can be read into a sprite: whole pixels, no more than a sprite holds.
pub open spec fn sprite_image(rgba: Seq<u8>) -> bool {
    rgba.len() % 4 == 0 && rgba.len() <= 4 * SPRITE_PIXELS
}

/// The cube sprites, one for each decoded image of `images` (red, green, blue and alpha
/// bytes, row by row), in order: stone, mud, grass, blank, floor, man, water, lantern, and
/// the half, quarter and small water levels.
pub fn load_cube_sprites(images: Vec<Vec<u8>>) -> (r: Vec<Sprite>)
    requires
        forall|i: int| 0 <= i < images@.len() ==> sprite_image(#[trigger] images@[i]@),
    ensures
        r@.len() == images@.len(),
        forall|i: int| 0 <= i < r@.len() ==> sprite_of(images@[i]@, #[trigger] r@[i]),
{
    let mut r: Vec<Sprite> = Vec::new();
    let mut i: usize = 0;
    while i < images.len()
        invariant
            i <= images@.len(),
            r@.len() == i,
            forall|j: int| 0 <= j < images@.len() ==> sprite_image(#[trigger] images@[j]@),
            forall|j: int| 0 <= j < r@.len() ==> sprite_of(images@[j]@, #[trigger] r@[j]),
        decreases images@.len() - i,
    {
        let s = Sprite::new(images[i].as_slice());
        r.push(s);
        i = i + 1;
    }
    r
}

/// The pool of a worker's animations: ploughing, mining and standing idle face the camera;
/// running has a sequence for each screen heading.
pub fn load_animations(
    ploughing: Vec<Sprite>,
    mining: Vec<Sprite>,
    running_ne: Vec<Sprite>,
    running_se: Vec<Sprite>,
    running_sw: Vec<Sprite>,
    running_nw: Vec<Sprite>,
    idle: Sprite,
) -> (pool: AnimationPool)
    ensures
        pool.animations@.len() == 4,
        *pool.animations@[0] matches Animation::CameraFacingAnimation { frames, name } && frames@
            == ploughing@ && name@ == ploughing_name(),
        *pool.animations@[1] matches Animation::CameraFacingAnimation { frames, name } && frames@
            == mining@ && name@ == mining_name(),
        *pool.animations@[2] matches Animation::CompassAwareAnimation {
            frames_ne,
            frames_se,
            frames_sw,
            frames_nw,
            name,
        } && frames_ne@ == running_ne@ && frames_se@ == running_se@ && frames_sw@
            == running_sw@ && frames_nw@ == running_nw@ && name@ == running_name(),
        *pool.animations@[3] matches Animation::CameraFacingAnimation { frames, name } && frames@
            == seq![idle] && name@ == idle_name(),
        ploughing@.len() >= 1 && mining@.len() >= 1 && running_ne@.len() >= 1
            && running_se@.len() == running_ne@.len() && running_sw@.len() == running_ne@.len()
            && running_nw@.len() == running_ne@.len() ==> pool_ready(pool),
{
    proof {
        reveal_strlit("ploughing");
        reveal_strlit("mining");
        reveal_strlit("running");
        reveal_strlit("idle");
        assert("ploughing"@ =~= ploughing_name());
        assert("mining"@ =~= mining_name());
        assert("running"@ =~= running_name());
        assert("idle"@ =~= idle_name());
    }
    let plough_animation = Arc::new(
        Animation::CameraFacingAnimation { frames: ploughing, name: "ploughing".to_owned() },
    );
    let mining_animation = Arc::new(
        Animation::CameraFacingAnimation { frames: mining, name: "mining".to_owned() },
    );
    let run_animation = Arc::new(
        Animation::CompassAwareAnimation {
            frames_ne: running_ne,
            frames_se: running_se,
            frames_sw: running_sw,
            frames_nw: running_nw,
            name: "running".to_owned(),
        },
    );
    let idle_frames = vec![idle];
    let idle_animation = Arc::new(
        Animation::CameraFacingAnimation { frames: idle_frames, name: "idle".to_owned() },
    );
    let pool = AnimationPool {
        animations: vec![plough_animation, mining_animation, run_animation, idle_animation],
    };
    proof {
        assert(pool.animations@[0].name_view() == ploughing_name());
        assert(pool.animations@[1].name_view() == mining_name());
        assert(pool.animations@[2].name_view() == running_name());
        assert(pool.animations@[3].name_view() == idle_name());
    }
    pool
}

} // verus!

//! Animations: named sequences of sprites, and the pool they are looked up in.

use vstd::prelude::*;
use std::sync::Arc;

use crate::render::Sprite;

verus! {

/// A named sequence of frames. A compass-aware animation has one sequence per screen
/// heading (north-east, south-east, south-west, north-west), all of the same length; a
/// camera-facing one has a single sequence.
pub enum Animation {
    CompassAwareAnimation {
        frames_ne: Vec<Sprite>,
        frames_se: Vec<Sprite>,
        frames_sw: Vec<Sprite>,
        frames_nw: Vec<Sprite>,
        name: String,
    },
    CameraFacingAnimation { frames: Vec<Sprite>, name: String },
}

impl Animation {
    /// The animation's name.
    pub open spec fn name_view(&self) -> Seq<char> {
        match self {
            Animation::CompassAwareAnimation { name, .. } => name@,
            Animation::CameraFacingAnimation { name, .. } => name@,
        }
    }

    /// The number of frames, counted on the north-east sequence of a compass-aware one.
    pub open spec fn length_view(&self) -> nat {
        match self {
            Animation::CompassAwareAnimation { frames_ne, .. } => frames_ne@.len(),
            Animation::CameraFacingAnimation { frames, .. } => frames@.len(),
        }
    }

    /// The number of frames fits in a usize, as the length of a vector does.
    pub proof fn lemma_length_fits(&self)
        ensures
            self.length_view() <= usize::MAX,
    {
        match self {
            Animation::CompassAwareAnimation { frames_ne, .. } => {
                assert(frames_ne@.len() == frames_ne.len());
            },
            Animation::CameraFacingAnimation { frames, .. } => {
                assert(frames@.len() == frames.len());
            },
        }
    }

    pub fn name(&self) -> (r: &String)
        ensures
            r@ == self.name_view(),
    {
        match self {
            Animation::CompassAwareAnimation { name, .. } => name,
            Animation::CameraFacingAnimation { name, .. } => name,
        }
    }

    pub fn length(&self) -> (r: usize)
        ensures
            r == self.length_view(),
    {
        match self {
            Animation::CompassAwareAnimation { frames_ne, .. } => frames_ne.len(),
            Animation::CameraFacingAnimation { frames, .. } => frames.len(),
        }
    }
}

/// The animations an agent can switch between, looked up by name.
pub struct AnimationPool {
    pub animations: Vec<Arc<Animation>>,
}

/// `i` is the first place in `anims` that holds an animation called `name`.
pub open spec fn first_named(anims: Seq<Arc<Animation>>, name: Seq<char>, i: int) -> bool {
    &&& 0 <= i < anims.len()
    &&& anims[i].name_view() == name
    &&& forall|j: int| 0 <= j < i ==> anims[j].name_view() != name
}

/// Some animation in `anims` is called `name`.
pub open spec fn has_named(anims: Seq<Arc<Animation>>, name: Seq<char>) -> bool {
    exists|i: int| 0 <= i < anims.len() && anims[i].name_view() == name
}

impl AnimationPool {
    /// The animation called `name`: the first such in the pool, or none when no animation
    /// has that name.
    pub fn get(&self, name: &str) -> (r: Option<Arc<Animation>>)
        ensures
            r is Some <==> has_named(self.animations@, name@),
            r matches Some(a) ==> exists|i: int|
                first_named(self.animations@, name@, i) && a == self.animations@[i],
    {
        let wanted = name.to_owned();
        let mut i: usize = 0;
        while i < self.animations.len()
            invariant
                wanted@ == name@,
                i <= self.animations@.len(),
                forall|j: int| 0 <= j < i ==> self.animations@[j].name_view() != name@,
            decreases self.animations@.len() - i,
        {
            let found = *self.animations[i].name() == wanted;
            if found {
                let a = Arc::clone(&self.animations[i]);
                assert(first_named(self.animations@, name@, i as int));
                return Some(a);
            }
            i = i + 1;
        }
        None
    }
}

} // verus!

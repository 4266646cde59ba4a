use vstd::prelude::*;

use crate::model::{find_named, has_animation, next_frame, next_frame_spec, Pet};

verus! {

/// The live record of what the pet shows: indices of the current state and
/// animation into the pet, the frame shown next, and when (in milliseconds
/// of a monotonic clock) the last render and the last update happened.
#[derive(Debug, Clone, Copy, PartialEq, Eq, Structural)]
pub struct RuntimeCursor {
    pub state: usize,
    pub animation: usize,
    pub frame: usize,
    pub last_render: u64,
    pub last_update: u64,
}

/// What one tick asks of the loop around the engine.
#[derive(Debug, Clone, PartialEq, Eq)]
pub struct TickActions {
    /// The frame to draw, if one is due.
    pub frame: Option<String>,
    /// Whether the current state's update handler is to run.
    pub update: bool,
}

/// Time passed from `last` to `now`; none if the clock reads earlier.
pub open spec fn elapsed(now: u64, last: u64) -> int {
    if now >= last {
        now - last
    } else {
        0
    }
}

/// The cursor after one frame has been shown: the next frame; or, where an
/// animation other than the state's default has shown its last frame, the
/// default animation from its first frame.
pub open spec fn frame_step(pet: Pet, c: RuntimeCursor) -> RuntimeCursor {
    let len = pet.animations@[c.animation as int].frames@.len();
    let d = pet.default_animation_of(c.state as int);
    if c.frame == len - 1 && c.animation != d {
        RuntimeCursor { animation: d as usize, frame: 0, ..c }
    } else {
        RuntimeCursor { frame: next_frame_spec(c.frame as int, len as int) as usize, ..c }
    }
}

/// Whether a frame is due at `now`.
pub open spec fn render_due(pet: Pet, c: RuntimeCursor, now: u64) -> bool {
    elapsed(now, c.last_render) >= pet.animations@[c.animation as int].metadata.delay
}

/// The cursor after a render attempt at `now`.
pub open spec fn render_step(pet: Pet, c: RuntimeCursor, now: u64) -> RuntimeCursor {
    if render_due(pet, c, now) {
        RuntimeCursor { last_render: now, ..frame_step(pet, c) }
    } else {
        c
    }
}

/// `n` frames shown one after another.
pub open spec fn frame_steps(pet: Pet, c: RuntimeCursor, n: nat) -> RuntimeCursor
    decreases n,
{
    if n == 0 {
        c
    } else {
        frame_step(pet, frame_steps(pet, c, (n - 1) as nat))
    }
}

/// Whether the current state's update handler is due at `now`.
pub open spec fn update_due(pet: Pet, c: RuntimeCursor, now: u64) -> bool {
    let s = pet.states@[c.state as int];
    s.event_handlers.update && elapsed(now, c.last_update) >= s.metadata.update_delay
}

/// The cursor after an update attempt at `now`.
pub open spec fn update_step(pet: Pet, c: RuntimeCursor, now: u64) -> RuntimeCursor {
    if update_due(pet, c, now) {
        RuntimeCursor { last_update: now, ..c }
    } else {
        c
    }
}

impl RuntimeCursor {
    /// Both indices resolve and the frame lies within the animation.
    pub open spec fn wf(&self, pet: Pet) -> bool {
        &&& self.state < pet.states@.len()
        &&& self.animation < pet.animations@.len()
        &&& self.frame < pet.animations@[self.animation as int].frames@.len()
    }

    /// The cursor of a freshly loaded pet at `now`: its default state, that
    /// state's default animation, the first frame.
    pub fn initialize(pet: &Pet, now: u64) -> (r: RuntimeCursor)
        requires
            pet.wf(),
        ensures
            r.wf(*pet),
            r.state == pet.state_index(pet.metadata.default_state@),
            r.animation == pet.default_animation_of(r.state as int),
            r.frame == 0,
            r.last_render == now,
            r.last_update == now,
    {
        let s = find_named(&pet.states, &pet.metadata.default_state, pet.states.len());
        let s = s.unwrap();
        let a = find_named(&pet.animations, &pet.states[s].metadata.animation, pet.animations.len());
        let a = a.unwrap();
        proof {
            lemma_state_index(*pet, s as int);
            lemma_animation_index(*pet, a as int);
        }
        RuntimeCursor { state: s, animation: a, frame: 0, last_render: now, last_update: now }
    }

    /// The frame due at `now`, if any; the cursor moves on when one is given.
    pub fn maybe_render(&mut self, pet: &Pet, now: u64) -> (r: Option<String>)
        requires
            pet.wf(),
            old(self).wf(*pet),
        ensures
            *final(self) == render_step(*pet, *old(self), now),
            final(self).wf(*pet),
            r is Some <==> render_due(*pet, *old(self), now),
            r is Some ==> r->Some_0@ == pet.animations@[old(self).animation as int].frames@[old(
                self,
            ).frame as int]@,
    {
        let anim = &pet.animations[self.animation];
        let since: u64 = if now >= self.last_render { now - self.last_render } else { 0 };
        if since < anim.metadata.delay {
            return None;
        }
        let text = anim.frames[self.frame].clone();
        let d = find_named(&pet.animations, &pet.states[self.state].metadata.animation, pet.animations.len());
        let d = d.unwrap();
        proof {
            lemma_animation_index(*pet, d as int);
        }
        if self.frame == anim.frames.len() - 1 && self.animation != d {
            self.animation = d;
            self.frame = 0;
        } else {
            self.frame = next_frame(&self.frame, anim);
        }
        self.last_render = now;
        Some(text)
    }

    /// Whether the current state's update handler is due at `now`; when it
    /// is, the update is taken as done at `now`.
    pub fn maybe_update(&mut self, pet: &Pet, now: u64) -> (r: bool)
        requires
            pet.wf(),
            old(self).wf(*pet),
        ensures
            *final(self) == update_step(*pet, *old(self), now),
            final(self).wf(*pet),
            r == update_due(*pet, *old(self), now),
    {
        let state = &pet.states[self.state];
        let since: u64 = if now >= self.last_update { now - self.last_update } else { 0 };
        if state.event_handlers.update && since >= state.metadata.update_delay {
            self.last_update = now;
            true
        } else {
            false
        }
    }

    /// One tick at `now`: a render attempt, then an update attempt.
    pub fn tick(&mut self, pet: &Pet, now: u64) -> (r: TickActions)
        requires
            pet.wf(),
            old(self).wf(*pet),
        ensures
            *final(self) == update_step(*pet, render_step(*pet, *old(self), now), now),
            final(self).wf(*pet),
            r.frame is Some <==> render_due(*pet, *old(self), now),
            r.frame is Some ==> r.frame->Some_0@ == pet.animations@[old(self).animation as int].frames@[old(
                self,
            ).frame as int]@,
            r.update == update_due(*pet, render_step(*pet, *old(self), now), now),
    {
        let frame = self.maybe_render(pet, now);
        let update = self.maybe_update(pet, now);
        TickActions { frame, update }
    }

    /// The name of the current animation.
    pub fn get_current_anim(&self, pet: &Pet) -> (r: String)
        requires
            self.wf(*pet),
        ensures
            r@ == pet.animations@[self.animation as int].name@,
    {
        pet.animations[self.animation].name.clone()
    }

    /// Switches to the animation called `name` from its first frame; an
    /// unknown name is refused and leaves the cursor as it was.
    pub fn set_current_anim(&mut self, pet: &Pet, name: &String) -> (r: bool)
        requires
            pet.wf(),
            old(self).wf(*pet),
        ensures
            r == has_animation(pet.animations@, name@),
            r ==> *final(self) == (RuntimeCursor {
                animation: pet.animation_index(name@) as usize,
                frame: 0,
                ..*old(self)
            }),
            !r ==> *final(self) == *old(self),
            final(self).wf(*pet),
    {
        match find_named(&pet.animations, name, pet.animations.len()) {
            Some(a) => {
                proof {
                    lemma_animation_index(*pet, a as int);
                }
                self.animation = a;
                self.frame = 0;
                true
            },
            None => false,
        }
    }
}

/// With unique names, the animation found under a name is the one indexed by it.
proof fn lemma_animation_index(pet: Pet, i: int)
    requires
        pet.wf(),
        0 <= i < pet.animations@.len(),
    ensures
        pet.animation_index(pet.animations@[i].name@) == i,
{
    let name = pet.animations@[i].name@;
    let j = pet.animation_index(name);
    assert(0 <= j < pet.animations@.len() && pet.animations@[j].name@ == name);
    let names = crate::model::animation_names(pet.animations@);
    assert(names[i] == name && names[j] == name);
}

/// With unique names, the state found under a name is the one indexed by it.
proof fn lemma_state_index(pet: Pet, i: int)
    requires
        pet.wf(),
        0 <= i < pet.states@.len(),
    ensures
        pet.state_index(pet.states@[i].name@) == i,
{
    let name = pet.states@[i].name@;
    let j = pet.state_index(name);
    assert(0 <= j < pet.states@.len() && pet.states@[j].name@ == name);
    let names = crate::model::state_names(pet.states@);
    assert(names[i] == name && names[j] == name);
}

/// A render attempt that shows nothing changes nothing; and a second attempt
/// at the same instant as a render shows a frame only where the animation it
/// would show has no delay at all.
pub proof fn lemma_render_idempotent(pet: Pet, c: RuntimeCursor, now: u64)
    requires
        pet.wf(),
        c.wf(pet),
    ensures
        !render_due(pet, c, now) ==> render_step(pet, c, now) == c,
        render_due(pet, render_step(pet, c, now), now) && render_due(pet, c, now)
            ==> pet.animations@[render_step(pet, c, now).animation as int].metadata.delay == 0,
        !render_due(pet, render_step(pet, c, now), now) ==> render_step(
            pet,
            render_step(pet, c, now),
            now,
        ) == render_step(pet, c, now),
{
}

/// Showing `a` frames and then `b` more is showing `a + b` frames.
pub proof fn lemma_frame_steps_add(pet: Pet, c: RuntimeCursor, a: nat, b: nat)
    ensures
        frame_steps(pet, c, a + b) == frame_steps(pet, frame_steps(pet, c, a), b),
    decreases b,
{
    if b > 0 {
        lemma_frame_steps_add(pet, c, a, (b - 1) as nat);
        assert((a + b - 1) as nat == a + (b - 1) as nat);
    }
}

/// Before the last frame is reached, each shown frame just advances the
/// cursor: the frames of an animation are shown in their order.
pub proof fn lemma_frame_steps_advance(pet: Pet, c: RuntimeCursor, j: nat)
    requires
        pet.wf(),
        c.wf(pet),
        c.frame + j < pet.animations@[c.animation as int].frames@.len() <= usize::MAX,
    ensures
        frame_steps(pet, c, j) == (RuntimeCursor { frame: (c.frame + j) as usize, ..c }),
    decreases j,
{
    if j > 0 {
        lemma_frame_steps_advance(pet, c, (j - 1) as nat);
    }
}

/// Showing as many frames as the state's default animation holds brings the
/// cursor back to where it stood.
pub proof fn lemma_frames_wrap(pet: Pet, c: RuntimeCursor)
    requires
        pet.wf(),
        c.wf(pet),
        c.animation == pet.default_animation_of(c.state as int),
        pet.animations@[c.animation as int].frames@.len() <= usize::MAX,
    ensures
        frame_steps(pet, c, pet.animations@[c.animation as int].frames@.len()) == c,
{
    let k = pet.animations@[c.animation as int].frames@.len();
    let f = c.frame as nat;
    let a = (k - 1 - f) as nat;
    lemma_frame_steps_advance(pet, c, a);
    let c1 = frame_steps(pet, c, a);
    assert(frame_steps(pet, c1, 1) == frame_step(pet, frame_steps(pet, c1, 0)));
    let c2 = frame_steps(pet, c1, 1);
    assert(c2 == RuntimeCursor { frame: 0, ..c });
    lemma_frame_steps_add(pet, c, a, 1);
    lemma_frame_steps_advance(pet, c2, f);
    lemma_frame_steps_add(pet, c, a + 1, f);
    assert(a + 1 + f == k);
}

/// An animation other than the state's default, once it has shown its last
/// frame, gives way to the default animation from its first frame.
pub proof fn lemma_animation_reverts(pet: Pet, c: RuntimeCursor)
    requires
        pet.wf(),
        c.wf(pet),
        c.animation != pet.default_animation_of(c.state as int),
        pet.animations@.len() <= usize::MAX,
        pet.animations@[c.animation as int].frames@.len() <= usize::MAX,
    ensures
        frame_steps(pet, c, (pet.animations@[c.animation as int].frames@.len() - c.frame) as nat)
            == (RuntimeCursor {
            animation: pet.default_animation_of(c.state as int) as usize,
            frame: 0,
            ..c
        }),
{
    let k = pet.animations@[c.animation as int].frames@.len();
    let a = (k - 1 - c.frame) as nat;
    let d = pet.default_animation_of(c.state as int);
    let dn = pet.states@[c.state as int].metadata.animation@;
    assert(has_animation(pet.animations@, dn));
    assert(0 <= d < pet.animations@.len());
    lemma_frame_steps_advance(pet, c, a);
    let c1 = frame_steps(pet, c, a);
    assert(frame_steps(pet, c1, 1) == frame_step(pet, frame_steps(pet, c1, 0)));
    lemma_frame_steps_add(pet, c, a, 1);
    assert(a + 1 == k - c.frame);
}

/// An animation other than the state's default, switched to at its first
/// frame, shows each of its frames once, in order, and then gives way to the
/// default animation from its first frame.
pub proof fn lemma_override_plays_once(pet: Pet, c: RuntimeCursor)
    requires
        pet.wf(),
        c.wf(pet),
        c.frame == 0,
        c.animation != pet.default_animation_of(c.state as int),
        pet.animations@.len() <= usize::MAX,
        pet.animations@[c.animation as int].frames@.len() <= usize::MAX,
    ensures
        forall|j: nat|
            j < pet.animations@[c.animation as int].frames@.len() ==> #[trigger] frame_steps(pet, c, j)
                == (RuntimeCursor { frame: j as usize, ..c }),
        frame_steps(pet, c, pet.animations@[c.animation as int].frames@.len()) == (RuntimeCursor {
            animation: pet.default_animation_of(c.state as int) as usize,
            frame: 0,
            ..c
        }),
{
    let k = pet.animations@[c.animation as int].frames@.len();
    assert forall|j: nat| j < k implies #[trigger] frame_steps(pet, c, j) == (RuntimeCursor {
        frame: j as usize,
        ..c
    }) by {
        lemma_frame_steps_advance(pet, c, j);
    }
    lemma_animation_reverts(pet, c);
}

/// After the update handler ran at `t1`, an attempt at a later `t2` runs it
/// again exactly when the state's update interval has passed since `t1`.
pub proof fn lemma_update_cadence(pet: Pet, c: RuntimeCursor, t1: u64, t2: u64)
    requires
        pet.wf(),
        c.wf(pet),
        update_due(pet, c, t1),
        t1 <= t2,
    ensures
        update_due(pet, update_step(pet, c, t1), t2) <==> t2 - t1
            >= pet.states@[c.state as int].metadata.update_delay,
{
}

} // verus!

use vstd::prelude::*;

use crate::error::{Error, ObjectFault};
use crate::frames::{
    collect_frames, frame_entries, keyed_view, lemma_ordered_by_key_sorted, order_by_key, ordered_by_key,
    FrameFile, KeyedFrame,
};

verus! {

/// Per-animation settings: the least time between two frames, in milliseconds.
pub struct AnimationMetadata {
    pub delay: u64,
}

/// A named sequence of text frames.
pub struct Animation {
    pub name: String,
    pub metadata: AnimationMetadata,
    pub frames: Vec<String>,
}

/// The frame that follows `frame` in an animation of `len` frames.
pub open spec fn next_frame_spec(frame: int, len: int) -> int {
    if frame < len - 1 {
        frame + 1
    } else {
        0
    }
}

/// The frame shown after `frame`: the next one, or the first after the last.
pub fn next_frame(frame: &usize, animation: &Animation) -> (r: usize)
    requires
        animation.frames@.len() > 0,
    ensures
        r == next_frame_spec(*frame as int, animation.frames@.len() as int),
        *frame < animation.frames@.len() ==> r < animation.frames@.len(),
{
    if *frame < animation.frames.len() - 1 {
        *frame + 1
    } else {
        0
    }
}


/// The frame reached from `frame` after `j` steps in an animation of `len` frames.
pub open spec fn next_frame_iter(frame: int, len: int, j: nat) -> int
    decreases j,
{
    if j == 0 {
        frame
    } else {
        next_frame_spec(next_frame_iter(frame, len, (j - 1) as nat), len)
    }
}

/// Stepping `j` frames from `frame` moves forward `j` places, around the end.
pub proof fn lemma_next_frame_iter(frame: int, len: int, j: nat)
    requires
        0 <= frame < len,
        j <= len,
    ensures
        next_frame_iter(frame, len, j) == if frame + j < len {
            frame + j
        } else {
            frame + j - len
        },
    decreases j,
{
    if j > 0 {
        lemma_next_frame_iter(frame, len, (j - 1) as nat);
    }
}

/// In an animation of `len` frames, `len` steps lead back to the starting
/// frame, and no fewer steps do.
pub proof fn lemma_next_frame_cycle(frame: int, len: int)
    requires
        0 <= frame < len,
    ensures
        next_frame_iter(frame, len, len as nat) == frame,
        forall|j: nat| 0 < j < len ==> #[trigger] next_frame_iter(frame, len, j) != frame,
{
    lemma_next_frame_iter(frame, len, len as nat);
    assert forall|j: nat| 0 < j < len implies #[trigger] next_frame_iter(frame, len, j) != frame by {
        lemma_next_frame_iter(frame, len, j);
    }
}

/// The texts of keyed frames, in their order.
pub open spec fn frame_texts(s: Seq<KeyedFrame>) -> Seq<Seq<char>> {
    s.map_values(|e: KeyedFrame| e.1)
}

pub open spec fn texts_view(v: Seq<String>) -> Seq<Seq<char>> {
    v.map_values(|t: String| t@)
}

impl Animation {
    /// Builds the animation `name` from the files of its directory: the frame
    /// files (`<N>.txt`) in ascending order of `N`; fails when there is none.
    pub fn load(name: String, metadata: AnimationMetadata, files: Vec<FrameFile>) -> (r: Result<
        Self,
        Error,
    >)
        ensures
            frame_entries(files@).len() > 0 <==> r is Ok,
            frame_entries(files@).len() == 0 <==> r == Err::<Self, Error>(
                Error::InvalidObject(ObjectFault::NoFrames),
            ),
            r is Ok ==> r->Ok_0.name == name && r->Ok_0.metadata == metadata && texts_view(
                r->Ok_0.frames@,
            ) == frame_texts(ordered_by_key(frame_entries(files@))),
            r is Ok ==> r->Ok_0.frames@.len() > 0,
    {
        let keyed = collect_frames(&files);
        let ordered = order_by_key(keyed);
        proof {
            lemma_ordered_by_key_sorted(frame_entries(files@));
        }
        if ordered.len() == 0 {
            return Err(Error::InvalidObject(ObjectFault::NoFrames));
        }
        let mut frames: Vec<String> = Vec::new();
        let mut i: usize = 0;
        while i < ordered.len()
            invariant
                i <= ordered@.len(),
                texts_view(frames@) =~= frame_texts(
                    keyed_view(ordered@),
                ).subrange(0, i as int),
            decreases ordered@.len() - i,
        {
            let ghost before = frames@;
            frames.push(ordered[i].1.clone());
            assert(texts_view(frames@) =~= texts_view(before).push(ordered@[i as int].1@));
            i = i + 1;
        }
        Ok(Animation { name, metadata, frames })
    }
}

/// Per-state settings: the default animation's name and the update interval,
/// in milliseconds.
pub struct StateMetadata {
    pub animation: String,
    pub update_delay: u64,
}

/// Which of the four event handlers a state's script defines.
#[derive(Debug, Clone, Copy, PartialEq, Eq, Structural)]
pub struct StateEventHandlers {
    pub init: bool,
    pub update: bool,
    pub key_down: bool,
    pub key_up: bool,
}

/// A named behavioural mode of the pet.
pub struct State {
    pub name: String,
    pub metadata: StateMetadata,
    pub event_handlers: StateEventHandlers,
}

impl State {
    /// A state called `name`, with its settings and the handlers its script
    /// defines.
    pub fn load(name: String, metadata: StateMetadata, event_handlers: StateEventHandlers) -> (r: Self)
        ensures
            r.name == name,
            r.metadata == metadata,
            r.event_handlers == event_handlers,
    {
        State { name, metadata, event_handlers }
    }
}

/// Pet-level settings; the tick delay is in milliseconds.
pub struct PetMetadata {
    pub name: String,
    pub description: String,
    pub default_state: String,
    pub global_tick_delay: u64,
}

/// A loaded pet: its settings, animations and states, each name used once.
pub struct Pet {
    pub metadata: PetMetadata,
    pub animations: Vec<Animation>,
    pub states: Vec<State>,
}

pub open spec fn has_animation(anims: Seq<Animation>, name: Seq<char>) -> bool {
    exists|i: int| 0 <= i < anims.len() && (#[trigger] anims[i]).name@ == name
}

pub open spec fn has_state(states: Seq<State>, name: Seq<char>) -> bool {
    exists|i: int| 0 <= i < states.len() && (#[trigger] states[i]).name@ == name
}

/// No name occurs twice.
pub open spec fn names_unique(names: Seq<Seq<char>>) -> bool {
    forall|i: int, j: int|
        0 <= i < names.len() && 0 <= j < names.len() && i != j ==> names[i] != names[j]
}

pub open spec fn animation_names(anims: Seq<Animation>) -> Seq<Seq<char>> {
    anims.map_values(|a: Animation| a.name@)
}

pub open spec fn state_names(states: Seq<State>) -> Seq<Seq<char>> {
    states.map_values(|s: State| s.name@)
}

pub open spec fn animation_names_unique(anims: Seq<Animation>) -> bool {
    names_unique(animation_names(anims))
}

pub open spec fn state_names_unique(states: Seq<State>) -> bool {
    names_unique(state_names(states))
}

/// A name unlike every earlier one keeps a prefix free of repeats.
proof fn lemma_names_unique_extend(names: Seq<Seq<char>>, i: int)
    requires
        0 <= i < names.len(),
        names_unique(names.subrange(0, i)),
        forall|k: int| 0 <= k < i ==> names[k] != names[i],
    ensures
        names_unique(names.subrange(0, i + 1)),
{
    let pre = names.subrange(0, i);
    let post = names.subrange(0, i + 1);
    assert forall|a: int, b: int| 0 <= a < post.len() && 0 <= b < post.len() && a != b implies post[a]
        != post[b] by {
        if a < i && b < i {
            assert(pre[a] == post[a] && pre[b] == post[b]);
        }
    }
}

pub open spec fn all_have_frames(anims: Seq<Animation>) -> bool {
    forall|i: int| 0 <= i < anims.len() ==> (#[trigger] anims[i]).frames@.len() > 0
}

pub open spec fn all_defaults_known(anims: Seq<Animation>, states: Seq<State>) -> bool {
    forall|i: int| 0 <= i < states.len() ==> has_animation(anims, (#[trigger] states[i]).metadata.animation@)
}

/// What is wrong with a pet made of these parts, checked in a fixed order.
pub open spec fn pet_fault(meta: PetMetadata, anims: Seq<Animation>, states: Seq<State>) -> Option<ObjectFault> {
    if !all_have_frames(anims) {
        Some(ObjectFault::NoFrames)
    } else if !animation_names_unique(anims) {
        Some(ObjectFault::DuplicateAnimation)
    } else if !state_names_unique(states) {
        Some(ObjectFault::DuplicateState)
    } else if !has_state(states, meta.default_state@) {
        Some(ObjectFault::UnknownDefaultState)
    } else if !all_defaults_known(anims, states) {
        Some(ObjectFault::UnknownAnimation)
    } else {
        None
    }
}

impl Pet {
    /// Every name resolves: the default state, and each state's default animation.
    pub open spec fn wf(&self) -> bool {
        pet_fault(self.metadata, self.animations@, self.states@) is None
    }

    /// The index of the animation called `name`.
    pub open spec fn animation_index(&self, name: Seq<char>) -> int {
        choose|i: int| 0 <= i < self.animations@.len() && (#[trigger] self.animations@[i]).name@ == name
    }

    /// The index of the state called `name`.
    pub open spec fn state_index(&self, name: Seq<char>) -> int {
        choose|i: int| 0 <= i < self.states@.len() && (#[trigger] self.states@[i]).name@ == name
    }

    /// The index of the default animation of state `s`.
    pub open spec fn default_animation_of(&self, s: int) -> int {
        self.animation_index(self.states@[s].metadata.animation@)
    }

    /// Puts a pet together; fails, as one unit, when any name does not resolve,
    /// is used twice, or an animation has no frame.
    pub fn load(metadata: PetMetadata, animations: Vec<Animation>, states: Vec<State>) -> (r: Result<Pet, Error>)
        ensures
            match pet_fault(metadata, animations@, states@) {
                None => r is Ok && r->Ok_0.metadata == metadata && r->Ok_0.animations@
                    == animations@ && r->Ok_0.states@ == states@,
                Some(f) => r == Err::<Pet, Error>(Error::InvalidObject(f)),
            },
            r is Ok ==> r->Ok_0.wf(),
    {
        let mut i: usize = 0;
        while i < animations.len()
            invariant
                i <= animations@.len(),
                forall|k: int| 0 <= k < i ==> (#[trigger] animations@[k]).frames@.len() > 0,
            decreases animations@.len() - i,
        {
            if animations[i].frames.len() == 0 {
                return Err(Error::InvalidObject(ObjectFault::NoFrames));
            }
            i = i + 1;
        }
        let mut i: usize = 0;
        while i < animations.len()
            invariant
                i <= animations@.len(),
                all_have_frames(animations@),
                names_unique(animation_names(animations@).subrange(0, i as int)),
            decreases animations@.len() - i,
        {
            if let Some(j) = find_named(&animations, &animations[i].name, i) {
                assert(animation_names(animations@)[j as int] == animation_names(animations@)[i as int]);
                return Err(Error::InvalidObject(ObjectFault::DuplicateAnimation));
            }
            proof {
                assert forall|k: int| 0 <= k < i implies animation_names(animations@)[k] != animation_names(animations@)[i as int] by {
                    assert(animation_names(animations@)[k] == animations@[k].name@);
                }
                lemma_names_unique_extend(animation_names(animations@), i as int);
            }
            i = i + 1;
        }
        assert(animation_names(animations@).subrange(0, i as int) =~= animation_names(animations@));
        let mut i: usize = 0;
        while i < states.len()
            invariant
                i <= states@.len(),
                all_have_frames(animations@),
                animation_names_unique(animations@),
                names_unique(state_names(states@).subrange(0, i as int)),
            decreases states@.len() - i,
        {
            if let Some(j) = find_named(&states, &states[i].name, i) {
                assert(state_names(states@)[j as int] == state_names(states@)[i as int]);
                return Err(Error::InvalidObject(ObjectFault::DuplicateState));
            }
            proof {
                assert forall|k: int| 0 <= k < i implies state_names(states@)[k] != state_names(states@)[i as int] by {
                    assert(state_names(states@)[k] == states@[k].name@);
                }
                lemma_names_unique_extend(state_names(states@), i as int);
            }
            i = i + 1;
        }
        assert(state_names(states@).subrange(0, i as int) =~= state_names(states@));
        if find_named(&states, &metadata.default_state, states.len()).is_none() {
            return Err(Error::InvalidObject(ObjectFault::UnknownDefaultState));
        }
        let mut i: usize = 0;
        while i < states.len()
            invariant
                i <= states@.len(),
                forall|k: int| 0 <= k < i ==> has_animation(animations@, (#[trigger] states@[k]).metadata.animation@),
                all_have_frames(animations@),
                animation_names_unique(animations@),
                state_names_unique(states@),
                has_state(states@, metadata.default_state@),
            decreases states@.len() - i,
        {
            if find_named(&animations, &states[i].metadata.animation, animations.len()).is_none() {
                assert(!has_animation(animations@, states@[i as int].metadata.animation@));
                return Err(Error::InvalidObject(ObjectFault::UnknownAnimation));
            }
            i = i + 1;
        }
        Ok(Pet { metadata, animations, states })
    }
}

/// An item known by a name.
pub trait Named {
    spec fn name_view(&self) -> Seq<char>;

    fn name(&self) -> (r: &String)
        ensures
            r@ == self.name_view(),
    ;
}

impl Named for Animation {
    open spec fn name_view(&self) -> Seq<char> {
        self.name@
    }

    fn name(&self) -> (r: &String) {
        &self.name
    }
}

impl Named for State {
    open spec fn name_view(&self) -> Seq<char> {
        self.name@
    }

    fn name(&self) -> (r: &String) {
        &self.name
    }
}

/// The first index below `end` of an item called `name`.
pub fn find_named<T: Named>(items: &Vec<T>, name: &String, end: usize) -> (r: Option<usize>)
    requires
        end <= items@.len(),
    ensures
        match r {
            Some(i) => i < end && items@[i as int].name_view() == name@ && forall|k: int|
                0 <= k < i ==> (#[trigger] items@[k]).name_view() != name@,
            None => forall|k: int| 0 <= k < end ==> (#[trigger] items@[k]).name_view() != name@,
        },
{
    let mut i: usize = 0;
    while i < end
        invariant
            i <= end <= items@.len(),
            forall|k: int| 0 <= k < i ==> (#[trigger] items@[k]).name_view() != name@,
        decreases end - i,
    {
        if *items[i].name() == *name {
            return Some(i);
        }
        i = i + 1;
    }
    None
}

} // verus!

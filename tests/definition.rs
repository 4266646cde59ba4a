use a_duk::error::{Error, ObjectFault};
use a_duk::frames::{frame_key, order_by_key, FrameFile};
use a_duk::model::{
    next_frame, Animation, AnimationMetadata, Pet, PetMetadata, State, StateEventHandlers,
    StateMetadata,
};

fn file(name: &str, text: &str) -> FrameFile {
    FrameFile { name: name.to_string(), text: text.to_string() }
}

fn anim(name: &str, delay: u64, frames: &[&str]) -> Animation {
    Animation {
        name: name.to_string(),
        metadata: AnimationMetadata { delay },
        frames: frames.iter().map(|f| f.to_string()).collect(),
    }
}

fn no_handlers() -> StateEventHandlers {
    StateEventHandlers { init: false, update: false, key_down: false, key_up: false }
}

fn state(name: &str, animation: &str) -> State {
    State::load(
        name.to_string(),
        StateMetadata { animation: animation.to_string(), update_delay: 1000 },
        no_handlers(),
    )
}

fn meta(default_state: &str) -> PetMetadata {
    PetMetadata {
        name: "duk".to_string(),
        description: "A duk.".to_string(),
        default_state: default_state.to_string(),
        global_tick_delay: 100,
    }
}

#[test]
fn frame_key_reads_integer_names() {
    assert_eq!(frame_key("2.txt"), Some(2));
    assert_eq!(frame_key("0.txt"), Some(0));
    assert_eq!(frame_key("10.txt"), Some(10));
    assert_eq!(frame_key("007.txt"), Some(7));
    assert_eq!(frame_key("+3.txt"), Some(3));
    assert_eq!(frame_key("18446744073709551615.txt"), Some(u64::MAX));
}

#[test]
fn frame_key_rejects_other_names() {
    assert_eq!(frame_key("meta.toml"), None);
    assert_eq!(frame_key(".txt"), None);
    assert_eq!(frame_key("+.txt"), None);
    assert_eq!(frame_key("-1.txt"), None);
    assert_eq!(frame_key("1a.txt"), None);
    assert_eq!(frame_key("1.txt.bak"), None);
    assert_eq!(frame_key("1.TXT"), None);
    assert_eq!(frame_key("18446744073709551616.txt"), None);
    assert_eq!(frame_key(""), None);
}

#[test]
fn order_by_key_is_stable() {
    let v = vec![(3, "a".to_string()), (1, "b".to_string()), (3, "c".to_string()), (1, "d".to_string())];
    let r = order_by_key(v);
    let texts: Vec<&str> = r.iter().map(|e| e.1.as_str()).collect();
    assert_eq!(texts, vec!["b", "d", "a", "c"]);
}

#[test]
fn animation_frames_follow_numeric_keys() {
    let files = vec![file("2.txt", "two"), file("0.txt", "zero"), file("meta.toml", "delay = 5"), file("10.txt", "ten")];
    let a = Animation::load("blink".to_string(), AnimationMetadata { delay: 500 }, files).unwrap();
    assert_eq!(a.name, "blink");
    assert_eq!(a.metadata.delay, 500);
    assert_eq!(a.frames, vec!["zero".to_string(), "two".to_string(), "ten".to_string()]);
}

#[test]
fn animation_tolerates_gaps_and_equal_keys() {
    let files = vec![file("5.txt", "five"), file("01.txt", "one-a"), file("1.txt", "one-b")];
    let a = Animation::load("x".to_string(), AnimationMetadata { delay: 1 }, files).unwrap();
    assert_eq!(a.frames, vec!["one-a".to_string(), "one-b".to_string(), "five".to_string()]);
}

#[test]
fn animation_without_frames_fails() {
    let files = vec![file("meta.toml", "delay = 5"), file("notes.txt", "hi")];
    let r = Animation::load("x".to_string(), AnimationMetadata { delay: 1 }, files);
    assert_eq!(r.err(), Some(Error::InvalidObject(ObjectFault::NoFrames)));
    let r = Animation::load("x".to_string(), AnimationMetadata { delay: 1 }, vec![]);
    assert_eq!(r.err(), Some(Error::InvalidObject(ObjectFault::NoFrames)));
}

#[test]
fn pet_load_accepts_resolving_names() {
    let anims = vec![anim("blink", 500, &["a", "b"]), anim("jump", 100, &["j"])];
    let states = vec![state("idle", "blink"), state("happy", "jump")];
    let pet = Pet::load(meta("idle"), anims, states).unwrap();
    assert_eq!(pet.animations.len(), 2);
    assert_eq!(pet.states.len(), 2);
    assert_eq!(pet.metadata.default_state, "idle");
    assert_eq!(pet.metadata.global_tick_delay, 100);
}

#[test]
fn pet_load_rejects_empty_animation() {
    let anims = vec![anim("blink", 500, &["a"]), anim("empty", 100, &[])];
    let r = Pet::load(meta("idle"), anims, vec![state("idle", "blink")]);
    assert_eq!(r.err(), Some(Error::InvalidObject(ObjectFault::NoFrames)));
}

#[test]
fn pet_load_rejects_duplicate_animation() {
    let anims = vec![anim("blink", 500, &["a"]), anim("blink", 100, &["b"])];
    let r = Pet::load(meta("idle"), anims, vec![state("idle", "blink")]);
    assert_eq!(r.err(), Some(Error::InvalidObject(ObjectFault::DuplicateAnimation)));
}

#[test]
fn pet_load_rejects_duplicate_state() {
    let anims = vec![anim("blink", 500, &["a"])];
    let r = Pet::load(meta("idle"), anims, vec![state("idle", "blink"), state("idle", "blink")]);
    assert_eq!(r.err(), Some(Error::InvalidObject(ObjectFault::DuplicateState)));
}

#[test]
fn pet_load_rejects_unknown_default_state() {
    let anims = vec![anim("blink", 500, &["a"])];
    let r = Pet::load(meta("sleep"), anims, vec![state("idle", "blink")]);
    assert_eq!(r.err(), Some(Error::InvalidObject(ObjectFault::UnknownDefaultState)));
    let r = Pet::load(meta("idle"), vec![anim("blink", 500, &["a"])], vec![]);
    assert_eq!(r.err(), Some(Error::InvalidObject(ObjectFault::UnknownDefaultState)));
}

#[test]
fn pet_load_rejects_unknown_state_animation() {
    let anims = vec![anim("blink", 500, &["a"])];
    let r = Pet::load(meta("idle"), anims, vec![state("idle", "blink"), state("happy", "jump")]);
    assert_eq!(r.err(), Some(Error::InvalidObject(ObjectFault::UnknownAnimation)));
}

#[test]
fn next_frame_wraps_after_last() {
    let a = anim("blink", 500, &["a", "b", "c"]);
    assert_eq!(next_frame(&0, &a), 1);
    assert_eq!(next_frame(&1, &a), 2);
    assert_eq!(next_frame(&2, &a), 0);
    let one = anim("still", 500, &["a"]);
    assert_eq!(next_frame(&0, &one), 0);
}

#[test]
fn animation_key_above_u32_loads() {
    let files = vec![file("4294967296.txt", "big"), file("1.txt", "small")];
    let a = Animation::load("x".to_string(), AnimationMetadata { delay: 1 }, files).unwrap();
    assert_eq!(a.frames, vec!["small".to_string(), "big".to_string()]);
}

#[test]
fn animation_skips_files_that_are_not_frames() {
    let files = vec![file("notes.txt", "n"), file("3.txt", "f"), file("x3.txt", "m")];
    let a = Animation::load("x".to_string(), AnimationMetadata { delay: 1 }, files).unwrap();
    assert_eq!(a.frames, vec!["f".to_string()]);
}

#[test]
fn error_descriptions() {
    assert_eq!(Error::IO("gone".to_string()).describe(), "IO Error: gone");
    assert_eq!(Error::TomlDeserializer("bad".to_string()).describe(), "Toml deserialization error: bad");
    assert_eq!(
        Error::Utf8("n?".to_string()).describe(),
        "Utf8 conversion error: Not a valid UTF8 string: n?"
    );
    assert_eq!(Error::InvalidFileName.describe(), "Invalid file name");
    assert_eq!(Error::Lua("boom".to_string()).describe(), "Lua error: boom");
    assert_eq!(
        Error::InvalidObject(ObjectFault::NoFrames).describe(),
        "Invalid object: Animation contains no frames"
    );
    assert_eq!(ObjectFault::UnknownAnimation.describe(), "A state's animation does not exist");
}

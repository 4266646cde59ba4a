use a_duk::engine::RuntimeCursor;
use a_duk::model::{Animation, AnimationMetadata, Pet, PetMetadata, State, StateEventHandlers, StateMetadata};

fn anim(name: &str, delay: u64, frames: &[&str]) -> Animation {
    Animation {
        name: name.to_string(),
        metadata: AnimationMetadata { delay },
        frames: frames.iter().map(|f| f.to_string()).collect(),
    }
}

fn state(name: &str, animation: &str, update_delay: u64, update: bool) -> State {
    State::load(
        name.to_string(),
        StateMetadata { animation: animation.to_string(), update_delay },
        StateEventHandlers { init: false, update, key_down: false, key_up: false },
    )
}

fn pet(states: Vec<State>, animations: Vec<Animation>) -> Pet {
    let metadata = PetMetadata {
        name: "duk".to_string(),
        description: "A duk.".to_string(),
        default_state: "idle".to_string(),
        global_tick_delay: 100,
    };
    Pet::load(metadata, animations, states).unwrap()
}

fn blink_pet(update: bool) -> Pet {
    pet(
        vec![state("sleep", "wave", 100, false), state("idle", "blink", 5000, update)],
        vec![anim("wave", 500, &["w0", "w1"]), anim("blink", 500, &["b0", "b1", "b2"])],
    )
}

#[test]
fn initialize_takes_default_state_and_animation() {
    let p = blink_pet(false);
    let c = RuntimeCursor::initialize(&p, 42);
    assert_eq!(p.states[c.state].name, "idle");
    assert_eq!(c.get_current_anim(&p), "blink");
    assert_eq!(c.frame, 0);
    assert_eq!(c.last_render, 42);
    assert_eq!(c.last_update, 42);
}

#[test]
fn render_waits_for_frame_delay() {
    let p = blink_pet(false);
    let mut c = RuntimeCursor::initialize(&p, 0);
    assert_eq!(c.maybe_render(&p, 499), None);
    assert_eq!(c.frame, 0);
    assert_eq!(c.maybe_render(&p, 500), Some("b0".to_string()));
    assert_eq!(c.frame, 1);
    assert_eq!(c.last_render, 500);
}

#[test]
fn render_twice_at_one_instant_renders_once() {
    let p = blink_pet(false);
    let mut c = RuntimeCursor::initialize(&p, 0);
    assert_eq!(c.maybe_render(&p, 600), Some("b0".to_string()));
    let after = c;
    assert_eq!(c.maybe_render(&p, 600), None);
    assert_eq!(c, after);
}

#[test]
fn frames_wrap_after_one_cycle() {
    let p = blink_pet(false);
    let mut c = RuntimeCursor::initialize(&p, 0);
    let start = c;
    let mut shown = Vec::new();
    for t in [500, 1000, 1500] {
        shown.push(c.maybe_render(&p, t).unwrap());
    }
    assert_eq!(shown, vec!["b0", "b1", "b2"]);
    assert_eq!(c.frame, start.frame);
    assert_eq!(c.animation, start.animation);
}

#[test]
fn override_animation_reverts_to_default() {
    let p = blink_pet(false);
    let mut c = RuntimeCursor::initialize(&p, 0);
    assert!(c.set_current_anim(&p, &"wave".to_string()));
    assert_eq!(c.get_current_anim(&p), "wave");
    assert_eq!(c.frame, 0);
    assert_eq!(c.maybe_render(&p, 500), Some("w0".to_string()));
    assert_eq!(c.get_current_anim(&p), "wave");
    assert_eq!(c.maybe_render(&p, 1000), Some("w1".to_string()));
    assert_eq!(c.get_current_anim(&p), "blink");
    assert_eq!(c.frame, 0);
    assert_eq!(c.maybe_render(&p, 1500), Some("b0".to_string()));
}

#[test]
fn unknown_animation_name_is_refused() {
    let p = blink_pet(false);
    let mut c = RuntimeCursor::initialize(&p, 0);
    c.maybe_render(&p, 500);
    let before = c;
    assert!(!c.set_current_anim(&p, &"dance".to_string()));
    assert_eq!(c, before);
}

#[test]
fn update_fires_once_per_interval() {
    let p = pet(
        vec![state("idle", "blink", 1000, true)],
        vec![anim("blink", 500, &["b0"])],
    );
    let mut c = RuntimeCursor::initialize(&p, 0);
    let mut fired = Vec::new();
    let mut t = 0;
    while t <= 3000 {
        if c.maybe_update(&p, t) {
            fired.push(t);
        }
        t += 300;
    }
    assert_eq!(fired, vec![1200, 2400]);
    assert!(!c.maybe_update(&p, 3399));
    assert!(c.maybe_update(&p, 3400));
}

#[test]
fn update_without_handler_never_fires() {
    let p = blink_pet(false);
    let mut c = RuntimeCursor::initialize(&p, 0);
    assert!(!c.maybe_update(&p, 1_000_000));
    assert_eq!(c.last_update, 0);
}

#[test]
fn idle_blink_scenario() {
    let p = blink_pet(false);
    let mut c = RuntimeCursor::initialize(&p, 0);
    let mut renders = Vec::new();
    let mut updates = 0;
    let mut t: u64 = 0;
    while t < 1600 {
        let actions = c.tick(&p, t);
        if let Some(f) = actions.frame {
            renders.push((t, f));
        }
        if actions.update {
            updates += 1;
        }
        t += p.metadata.global_tick_delay;
    }
    assert_eq!(
        renders,
        vec![(500, "b0".to_string()), (1000, "b1".to_string()), (1500, "b2".to_string())]
    );
    assert_eq!(c.frame, 0);
    assert_eq!(updates, 0);
}

#[test]
fn scripted_override_scenario() {
    let p = pet(
        vec![state("idle", "blink", 1000, true)],
        vec![anim("blink", 500, &["b0", "b1", "b2"]), anim("wave", 500, &["w0", "w1"])],
    );
    let mut c = RuntimeCursor::initialize(&p, 0);
    let mut shown = Vec::new();
    let mut t: u64 = 0;
    let mut overridden = false;
    while t <= 3000 {
        let actions = c.tick(&p, t);
        if let Some(f) = actions.frame {
            shown.push(f);
        }
        if actions.update && !overridden {
            assert!(c.set_current_anim(&p, &"wave".to_string()));
            overridden = true;
        }
        t += 100;
    }
    assert_eq!(shown, vec!["b0", "b1", "w0", "w1", "b0", "b1"]);
    assert_eq!(c.get_current_anim(&p), "blink");
}

use auclick::clicker::{click_target, ClickTarget, Clicker, Tick, IDLE_PAUSE_NANOS};
use auclick::config::Config;
use auclick::hotkey::InputEvent;

fn config(start: &str, stop: &str, click: &str, cps: u32) -> Config {
    Config {
        start_key: start.to_string(),
        stop_key: stop.to_string(),
        click_key: click.to_string(),
        cps,
    }
}

#[test]
fn click_targets() {
    assert_eq!(click_target("Key::A"), ClickTarget::KeyA);
    assert_eq!(click_target("Key::B"), ClickTarget::KeyB);
    assert_eq!(click_target("KeyA"), ClickTarget::UnknownKey);
    assert_eq!(click_target("Key::C"), ClickTarget::UnknownKey);
    assert_eq!(click_target("Left"), ClickTarget::Left);
    assert_eq!(click_target("Right"), ClickTarget::Right);
    assert_eq!(click_target("Middle"), ClickTarget::Middle);
    assert_eq!(click_target("left"), ClickTarget::UnknownButton);
    assert_eq!(click_target("Q"), ClickTarget::UnknownKey);
    assert_eq!(click_target("a"), ClickTarget::UnknownKey);
    assert_eq!(click_target("1"), ClickTarget::UnknownButton);
    assert_eq!(click_target("QQ"), ClickTarget::UnknownButton);
    assert_eq!(click_target(""), ClickTarget::UnknownButton);
}

#[test]
fn interval_is_one_over_rate() {
    assert_eq!(Clicker::new(&config("", "", "Left", 5)).interval_nanos, 200_000_000);
    assert_eq!(Clicker::new(&config("", "", "Left", 3)).interval_nanos, 333_333_333);
    assert_eq!(Clicker::new(&config("", "", "Left", 1)).interval_nanos, 1_000_000_000);
}

#[test]
fn tick_clicks_only_while_clicking() {
    let k = Clicker::new(&config("", "", "Right", 4));
    assert_eq!(k.tick(true), Tick { target: Some(ClickTarget::Right), pause_nanos: 250_000_000 });
    assert_eq!(k.tick(false), Tick { target: None, pause_nanos: 10_000_000 });
    assert_eq!(IDLE_PAUSE_NANOS, 10_000_000);
}

/// Runs the click loop on a simulated clock: `events` are (time in ns, event),
/// and the loop stops at `end`. Returns the times at which clicks were injected.
fn simulate(c: &Config, events: &[(u64, InputEvent)], end: u64) -> Vec<u64> {
    let k = Clicker::new(c);
    let mut clicking = false;
    let mut now: u64 = 0;
    let mut next_event = 0;
    let mut clicks = Vec::new();
    while now < end {
        while next_event < events.len() && events[next_event].0 <= now {
            clicking = c.command_for(&events[next_event].1).apply(clicking);
            next_event += 1;
        }
        let t = k.tick(clicking);
        if let Some(target) = t.target {
            if target.injects() {
                clicks.push(now);
            }
        }
        now += t.pause_nanos;
    }
    clicks
}

#[test]
fn start_wait_stop_scenario() {
    let c = config("KeyF6", "KeyF7", "Left", 5);
    let start = 50_000_000;
    let stop = start + 220_000_000;
    let events = [
        (start, InputEvent::KeyPress("KeyF6".to_string())),
        (stop, InputEvent::KeyPress("KeyF7".to_string())),
    ];
    let clicks = simulate(&c, &events, 2_000_000_000);
    assert!(!clicks.is_empty() && clicks.len() <= 2, "clicks at {:?}", clicks);
    assert!(clicks.iter().all(|&t| t >= start && t < stop));
    assert_eq!(Clicker::new(&c).target, ClickTarget::Left);
}

#[test]
fn unknown_click_trigger_clicks_nothing() {
    let c = config("KeyF6", "KeyF7", "Q", 5);
    let k = Clicker::new(&c);
    let t = k.tick(true);
    assert_eq!(t.target, Some(ClickTarget::UnknownKey));
    assert!(!t.target.unwrap().injects());
    let events = [(0, InputEvent::KeyPress("KeyF6".to_string()))];
    assert!(simulate(&c, &events, 1_000_000_000).is_empty());
}

#[test]
fn unknown_key_trigger_clicks_nothing() {
    let k = Clicker::new(&config("", "", "KeyQ", 5));
    assert_eq!(k.tick(true).target, Some(ClickTarget::UnknownKey));
    assert!(!ClickTarget::UnknownKey.injects());
    assert!(ClickTarget::KeyA.injects());
}

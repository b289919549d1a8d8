use auclick::config::{Config, DEFAULT_CPS};

fn config(start: &str, stop: &str, click: &str, cps: u32) -> Config {
    Config {
        start_key: start.to_string(),
        stop_key: stop.to_string(),
        click_key: click.to_string(),
        cps,
    }
}

fn same(a: &Config, b: &Config) -> bool {
    a.start_key == b.start_key && a.stop_key == b.stop_key && a.click_key == b.click_key
        && a.cps == b.cps
}

#[test]
fn render_writes_four_lines() {
    let c = config("F6", "F7", "Left", 15);
    assert_eq!(c.render(), "start_key=F6\nstop_key=F7\nclick_key=Left\ncps=15\n");
}

#[test]
fn render_writes_large_rate() {
    let c = config("", "", "", 4294967295);
    assert_eq!(c.render(), "start_key=\nstop_key=\nclick_key=\ncps=4294967295\n");
}

#[test]
fn parse_reads_all_fields() {
    let c = Config::parse("start_key=F6\nstop_key=F7\nclick_key=Key::A\ncps=25\n");
    assert_eq!(c.start_key, "F6");
    assert_eq!(c.stop_key, "F7");
    assert_eq!(c.click_key, "Key::A");
    assert_eq!(c.cps, 25);
}

#[test]
fn save_then_load_gives_back_the_config() {
    for c in [
        config("KeyF6", "KeyF7", "Left", 5),
        config("Unknown(12)", "Escape", "Key::B", 1),
        config("a b", "x=y", "Middle", 4294967295),
        config("", "", "", 10),
        config("ŝtart", "=stop", "Right", 100),
    ] {
        let back = Config::parse(&c.render());
        assert!(same(&c, &back), "{:?} came back as {:?}", c, back);
    }
}

#[test]
fn zero_rate_falls_back_to_default() {
    let c = Config::parse("start_key=F6\nstop_key=F7\nclick_key=Left\ncps=0\n");
    assert_eq!(c.cps, 10);
    assert_eq!(c.start_key, "F6");
}

#[test]
fn malformed_rate_falls_back_to_default() {
    assert_eq!(Config::parse("start_key=F6\ncps=abc\n").cps, 10);
    assert_eq!(Config::parse("cps=-3\n").cps, 10);
    assert_eq!(Config::parse("cps=4294967296\n").cps, 10);
    assert_eq!(Config::parse("cps=\n").cps, 10);
}

#[test]
fn missing_rate_falls_back_to_default() {
    let c = Config::parse("start_key=F6\nstop_key=F7\nclick_key=Left\n");
    assert_eq!(c.cps, DEFAULT_CPS);
    assert_eq!(c.cps, 10);
}

#[test]
fn rate_with_plus_sign_and_spaces_is_read() {
    assert_eq!(Config::parse("cps= +42 \n").cps, 42);
}

#[test]
fn empty_file_gives_empty_triggers() {
    let c = Config::parse("");
    assert_eq!(c.start_key, "");
    assert_eq!(c.stop_key, "");
    assert_eq!(c.click_key, "");
    assert_eq!(c.cps, 10);
}

#[test]
fn lines_and_values_are_trimmed() {
    let c = Config::parse("  start_key=  F6 \r\n\tstop_key=F7\r\nclick_key=Right");
    assert_eq!(c.start_key, "F6");
    assert_eq!(c.stop_key, "F7");
    assert_eq!(c.click_key, "Right");
}

#[test]
fn unknown_lines_are_ignored_and_last_line_wins() {
    let c = Config::parse("# note\nstart_key=F1\nspeed=3\nstart_key=F2\nstop_key = F3\n");
    assert_eq!(c.start_key, "F2");
    assert_eq!(c.stop_key, "");
}

#[test]
fn only_the_leading_key_is_stripped() {
    let c = Config::parse("start_key=start_key=x\n");
    assert_eq!(c.start_key, "start_key=x");
}

#[test]
fn reload_does_not_drift() {
    let text = "  start_key= F6 \nstop_key=F7\r\ncps=0\nclick_key=Key::A\njunk";
    let first = Config::parse(text);
    let saved_once = first.render();
    let second = Config::parse(&saved_once);
    let saved_twice = second.render();
    let third = Config::parse(&saved_twice);
    assert!(same(&first, &second));
    assert!(same(&second, &third));
    assert_eq!(saved_once, saved_twice);
}

use typhoon_rs::backend::capture::window::{
    _match_keyword, _sanitize_filename, match_lowercase, screenshot_plan, window_capture,
    window_detect, FrameAction, WindowHandler,
};
use typhoon_rs::util::clock::local_stamp;
use typhoon_rs::util::text::{decimal_text, last_line};

#[test]
fn forbidden_characters_become_underscores() {
    assert_eq!(_sanitize_filename("a|b\\c:d/e*f?g\"h<i>j"), "a_b_c_d_e_f_g_h_i_j");
    assert_eq!(_sanitize_filename("plain name.png"), "plain name.png");
    assert_eq!(_sanitize_filename("\u{e9}|\u{4e2d}"), "\u{e9}_\u{4e2d}");
    assert_eq!(_sanitize_filename(""), "");
    let once = _sanitize_filename("a/b");
    assert_eq!(_sanitize_filename(&once), once);
}

#[test]
fn keywords_match_whatever_the_case() {
    assert!(_match_keyword("GAME", "My Game Window", "x"));
    assert!(_match_keyword("game", "x", "gAmE.exe"));
    assert!(!_match_keyword("game", "gam e", "ame"));
    assert!(_match_keyword("", "", ""));
    assert!(_match_keyword("\u{c9}T\u{c9}", "un \u{e9}t\u{e9}", ""));
    assert!(match_lowercase("b", "abc", ""));
    assert!(!match_lowercase("B", "abc", "abc"));
    assert!(!match_lowercase("abcd", "abc", "bcd"));
}

#[test]
fn only_the_first_frame_is_saved() {
    let mut h = WindowHandler::new("shot.png".to_string());
    assert_eq!(h.filename(), "shot.png");
    assert_eq!(h.on_frame_arrived(), FrameAction::Save);
    assert_eq!(h.on_save(Err("disk full")), Err("disk full"));
    assert_eq!(h.on_frame_arrived(), FrameAction::Save);
    assert_eq!(h.on_save::<&str>(Ok(())), Ok(()));
    assert_eq!(h.on_frame_arrived(), FrameAction::Ignore);
}

#[test]
fn a_missing_window_is_reported() {
    assert_eq!(window_detect::<u32, &str>(Ok(7)), Ok(7));
    assert_eq!(window_detect::<u32, &str>(Err("x")), Err("No target window found".to_string()));
}

#[test]
fn screenshots_carry_the_time() {
    let plan = screenshot_plan("20240102_030405", 30);
    assert_eq!(plan.filename, "screenshot_20240102_030405.png");
    assert_eq!(plan.frame_interval, 33_333_333);
    let now = window_capture(60);
    assert!(now.filename.starts_with("screenshot_"));
    assert!(now.filename.ends_with(".png"));
    assert_eq!(now.frame_interval, 16_666_666);
}

#[test]
fn stamps_are_dates_and_times() {
    let stamp = local_stamp();
    assert_eq!(stamp.len(), 15);
    assert_eq!(&stamp[8..9], "_");
    assert!(stamp[..8].parse::<u32>().unwrap() >= 2020_01_01);
    assert!(stamp[4..6].parse::<u32>().unwrap() <= 12);
    assert!(stamp[9..].parse::<u32>().unwrap() < 240000);
}

#[test]
fn last_lines() {
    assert_eq!(last_line(""), None);
    assert_eq!(last_line("\n"), Some("".to_string()));
    assert_eq!(last_line("a\n\n"), Some("".to_string()));
    assert_eq!(last_line("one"), Some("one".to_string()));
    assert_eq!(last_line("one\ntwo"), Some("two".to_string()));
    assert_eq!(last_line("one\r\ntwo\r\n"), Some("two".to_string()));
    assert_eq!(last_line("one\r\ntwo\r"), Some("two\r".to_string()));
    for text in ["", "\n", "\r\n", "a\n\r\n", "x\ny\r", "\r", "a\rb\n"] {
        assert_eq!(last_line(text), text.lines().last().map(|l| l.to_string()));
    }
}

#[test]
fn decimal_notation() {
    for n in [0u64, 9, 10, 99, 100, 1920, 4_294_967_295, u64::MAX] {
        assert_eq!(decimal_text(n), n.to_string());
    }
}

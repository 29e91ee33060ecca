use velvet::screens::StoryWait;
use velvet::skip::{count_skippable_read_lines, OpClass, SkipConfig, SkipEngine, SkipMode, SkipResult, SkipView};

fn line(read: bool) -> SkipView {
    SkipView { wait: StoryWait::Line, read }
}

fn at(wait: StoryWait) -> SkipView {
    SkipView { wait, read: false }
}

fn engine(mode: SkipMode) -> SkipEngine {
    let mut e = SkipEngine::default();
    e.config.mode = mode;
    e
}

#[test]
fn force_read_only_downgrades_all() {
    let cfg = SkipConfig { mode: SkipMode::All, force_read_only: true, ..Default::default() };
    assert_eq!(cfg.effective_mode(), SkipMode::ReadOnly);
}

#[test]
fn skip_config_defaults() {
    let c = SkipConfig::default();
    assert_eq!(c.mode, SkipMode::Off);
    assert_eq!(c.max_batch, 256);
    assert!(c.stop_on_choice && c.stop_on_end && !c.force_read_only && c.ignore_voice_wait);
    let off = SkipConfig { force_read_only: true, ..Default::default() };
    assert_eq!(off.effective_mode(), SkipMode::Off);
}

#[test]
fn skip_off_not_eligible() {
    let mut e = engine(SkipMode::Off);
    assert_eq!(e.skip_once(line(true), false), SkipResult::NotEligible);
    assert_eq!(e.session_lines, 0);
}

#[test]
fn skip_once_falls_back_to_player_rule() {
    let mut e = engine(SkipMode::Off);
    assert_eq!(e.skip_once(line(true), true), SkipResult::Advanced { lines: 1 });
    assert_eq!(e.session_lines, 1);
}

#[test]
fn skip_once_stops_at_choice_and_end() {
    let mut e = engine(SkipMode::All);
    assert_eq!(e.skip_once(at(StoryWait::Choice), true), SkipResult::StoppedAtChoice);
    assert_eq!(e.skip_once(at(StoryWait::Ended), true), SkipResult::StoppedAtEnd);
    assert_eq!(e.skip_once(line(false), false), SkipResult::Advanced { lines: 1 });
    assert_eq!(e.session_lines, 1);
}

#[test]
fn read_only_needs_read_lines() {
    let e = engine(SkipMode::ReadOnly);
    assert!(e.can_skip_current(line(true)));
    assert!(!e.can_skip_current(line(false)));
    assert!(!e.can_skip_current(at(StoryWait::Choice)));
}

#[test]
fn batch_skips_until_end() {
    let mut e = engine(SkipMode::All);
    let path = [line(false), line(false), line(false), at(StoryWait::Ended)];
    assert_eq!(e.skip_batch(&path), SkipResult::Advanced { lines: 3 });
    assert_eq!(e.session_lines, 3);
    let mut e2 = engine(SkipMode::All);
    assert_eq!(e2.skip_batch(&[at(StoryWait::Ended)]), SkipResult::StoppedAtEnd);
}

#[test]
fn batch_stops_before_unread_in_read_only() {
    let mut e = engine(SkipMode::ReadOnly);
    let path = [line(true), line(true), line(false)];
    assert_eq!(e.skip_batch(&path), SkipResult::Advanced { lines: 2 });
    let mut e2 = engine(SkipMode::ReadOnly);
    assert_eq!(e2.skip_batch(&[line(false)]), SkipResult::NotEligible);
}

#[test]
fn batch_hits_limit() {
    let mut e = engine(SkipMode::All);
    e.config.max_batch = 2;
    let path = [line(false), line(false), line(false)];
    assert_eq!(e.skip_batch(&path), SkipResult::HitLimit);
    assert_eq!(e.session_lines, 2);
    let mut z = engine(SkipMode::All);
    z.config.max_batch = 0;
    assert_eq!(z.skip_batch(&[line(false), line(false)]), SkipResult::HitLimit);
    assert_eq!(z.session_lines, 1);
}

#[test]
fn batch_at_choice_without_stop_is_not_eligible() {
    let mut e = engine(SkipMode::All);
    e.config.stop_on_choice = false;
    assert_eq!(e.skip_batch(&[at(StoryWait::Choice)]), SkipResult::StoppedAtChoice);
    let mut e2 = engine(SkipMode::All);
    assert_eq!(e2.skip_batch(&[line(false), at(StoryWait::Choice)]), SkipResult::Advanced { lines: 1 });
}

#[test]
fn hold_session_counts_and_resets() {
    let mut e = engine(SkipMode::All);
    assert_eq!(e.tick_hold(&[line(false), line(false)]), SkipResult::NotEligible);
    e.begin_hold();
    assert!(e.holding);
    let r = e.tick_hold(&[line(false), at(StoryWait::Ended)]);
    assert_eq!(r, SkipResult::Advanced { lines: 1 });
    assert_eq!(e.session_lines, 1);
    e.end_hold();
    assert!(!e.holding);
    assert_eq!(e.session_lines, 1);
    e.begin_hold();
    assert_eq!(e.session_lines, 0);
}

#[test]
fn session_lines_saturate() {
    let mut e = engine(SkipMode::All);
    e.session_lines = u32::MAX;
    assert_eq!(e.skip_once(line(false), false), SkipResult::Advanced { lines: 1 });
    assert_eq!(e.session_lines, u32::MAX);
}

#[test]
fn count_read_lines_until_stop() {
    let ops = [
        OpClass::Line { read: true },
        OpClass::Other,
        OpClass::Line { read: true },
        OpClass::Line { read: false },
        OpClass::Line { read: true },
    ];
    assert_eq!(count_skippable_read_lines(&ops, 0, 10), 2);
    assert_eq!(count_skippable_read_lines(&ops, 0, 1), 1);
    assert_eq!(count_skippable_read_lines(&ops, 4, 10), 1);
    assert_eq!(count_skippable_read_lines(&ops, 9, 10), 0);
    let stops = [OpClass::Line { read: true }, OpClass::Stop, OpClass::Line { read: true }];
    assert_eq!(count_skippable_read_lines(&stops, 0, 10), 1);
    assert_eq!(count_skippable_read_lines(&[], 0, 10), 0);
}

/// What a three-line story (`A`, `B`, `C`, then the end) shows after each
/// advance from its first line; every line is read once it is shown.
fn three_lines() -> Vec<SkipView> {
    vec![line(true), line(true), line(true), at(StoryWait::Ended)]
}

#[test]
fn skip_all_advances_lines() {
    let mut engine = SkipEngine::default();
    engine.config.mode = SkipMode::All;
    let r = engine.skip_batch(&three_lines());
    match r {
        SkipResult::Advanced { lines } => assert!(lines >= 1),
        SkipResult::StoppedAtEnd => {}
        other => panic!("unexpected {other:?}"),
    }
}

#[test]
fn read_only_skips_after_seen() {
    let mut engine = SkipEngine::default();
    engine.config.mode = SkipMode::ReadOnly;
    let path = three_lines();
    let can = engine.can_skip_current(path[1]);
    assert!(can);
    let _ = engine.skip_once(path[1], false);
}

#[test]
fn hold_session_counts_lines() {
    let mut engine = SkipEngine::default();
    engine.config.mode = SkipMode::All;
    engine.begin_hold();
    let _ = engine.tick_hold(&three_lines());
    assert!(engine.session_lines >= 1);
    engine.end_hold();
    assert!(!engine.holding);
}

#[test]
fn count_skippable() {
    let ops = [
        OpClass::Line { read: true },
        OpClass::Line { read: false },
        OpClass::Line { read: false },
        OpClass::Stop,
    ];
    let n = count_skippable_read_lines(&ops, 0, 10);
    assert!(n >= 1);
    let _ = count_skippable_read_lines(&ops, 1, 10);
}

#[test]
fn skip_batch_reaches_end() {
    let mut engine = SkipEngine::default();
    engine.config.mode = SkipMode::All;
    engine.config.max_batch = 32;
    let path = three_lines();
    let mut pos = 0usize;
    let mut total = 0u32;
    for _ in 0..16 {
        match engine.skip_batch(&path[pos..]) {
            SkipResult::Advanced { lines } => {
                total += lines;
                pos += lines as usize;
            }
            SkipResult::StoppedAtEnd => break,
            SkipResult::NotEligible => break,
            other => panic!("unexpected {other:?}"),
        }
        if path[pos].wait == StoryWait::Ended {
            break;
        }
    }
    assert!(path[pos].wait == StoryWait::Ended || total >= 2, "total={total}");
}

#[test]
fn skip_once_advances_one_line() {
    let mut engine = SkipEngine::default();
    engine.config.mode = SkipMode::All;
    let r = engine.skip_once(three_lines()[0], false);
    match r {
        SkipResult::Advanced { lines } => assert!(lines >= 1),
        SkipResult::StoppedAtEnd => {}
        other => panic!("{other:?}"),
    }
}

#[test]
fn hold_then_end_clears_holding() {
    let mut engine = SkipEngine::default();
    engine.config.mode = SkipMode::All;
    engine.begin_hold();
    assert!(engine.holding);
    let path = three_lines();
    let mut pos = 0usize;
    for _ in 0..5 {
        if let SkipResult::Advanced { lines } = engine.tick_hold(&path[pos..]) {
            pos += lines as usize;
        }
        if path[pos].wait == StoryWait::Ended {
            break;
        }
    }
    assert!(engine.session_lines >= 1);
    engine.end_hold();
    assert!(!engine.holding);
    engine.begin_hold();
    assert_eq!(engine.session_lines, 0);
    assert!(engine.holding);
}

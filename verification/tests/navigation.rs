use panda::navigation::{pick_section, DriverSettings, KeyMotion, ScrollDirection, ScrollPlan};

#[test]
fn driver_settings_default() {
    let d = DriverSettings::resolve(None, None);
    assert_eq!(d.command, "geckodriver");
    assert_eq!(d.endpoint, "http://localhost:4444");
    let e = DriverSettings::resolve(Some("/opt/gd"), Some("http://h:1"));
    assert_eq!(e.command, "/opt/gd");
    assert_eq!(e.endpoint, "http://h:1");
}

#[test]
fn pick_section_by_index() {
    assert_eq!(pick_section(vec!["a", "b", "c"], 1), Some("b"));
    assert_eq!(pick_section(vec!["a", "b", "c"], 3), None);
    assert_eq!(pick_section(Vec::<u8>::new(), 0), None);
}

#[test]
fn scroll_plan_counts_actions() {
    let mut p = ScrollPlan::new(ScrollDirection::Down, 3);
    assert_eq!(p.source_id, "scroll_down");
    assert_eq!(p.motion, KeyMotion::Press);
    let mut n = 0;
    while p.next_step() {
        n += 1;
    }
    assert_eq!(n, 3);
    assert!(!p.next_step());
    let up = ScrollPlan::new(ScrollDirection::Up, 0);
    assert_eq!(up.source_id, "scroll_up");
    assert_eq!(up.motion, KeyMotion::Release);
}

use term_gfx::profiler::Timer;

#[test]
fn timer_keeps_label() {
    let t = Timer::new("render".to_string());
    assert_eq!(t.name(), "render");
}

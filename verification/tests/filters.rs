use samply_mcp::filters::FrameNameFilter;

fn text(s: &str) -> Option<String> {
    Some(s.to_string())
}

#[test]
fn names_pass_when_every_part_agrees() {
    let filter = FrameNameFilter::new(
        &text("game|net"),
        &text("debug"),
        &text("^app::"),
        &text("::tests$"),
        true,
    )
    .unwrap();
    assert!(filter.includes("app::GAME::tick"));
    assert!(!filter.includes("app::audio"));
    assert!(!filter.includes("app::game::debug"));
    assert!(!filter.includes("lib::game"));
    assert!(!filter.includes("app::game::tests"));
}

#[test]
fn cases_beyond_ascii_are_folded() {
    let filter = FrameNameFilter::new(&text("\u{c4}pfel"), &None, &None, &None, false).unwrap();
    assert!(filter.includes("\u{e4}PFEL"));
}

#[test]
fn broken_patterns_are_rejected() {
    let error = FrameNameFilter::new(&None, &None, &text("("), &None, false)
        .err()
        .unwrap();
    assert!(error.starts_with("Invalid include regex '(': "));
    let error = FrameNameFilter::new(&None, &None, &None, &text("["), false)
        .err()
        .unwrap();
    assert!(error.starts_with("Invalid exclude regex '[': "));
}

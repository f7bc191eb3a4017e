use rug::ui::keybar::render_keybar;
use rug::ui::layout::{popup_rect, too_small, Breakpoints, HeightTier, Rect, WidthTier};
use rug::ui::run::truncate;

fn area(width: u16, height: u16) -> Rect {
    Rect { x: 0, y: 0, width, height }
}

#[test]
fn sizes_fall_into_tiers() {
    for (w, tier) in [
        (110, WidthTier::W1),
        (109, WidthTier::W2),
        (80, WidthTier::W2),
        (79, WidthTier::W3),
        (60, WidthTier::W3),
        (59, WidthTier::W4),
    ] {
        assert_eq!(Breakpoints::of(area(w, 30)).w, tier, "{w}");
    }
    for (h, tier) in [
        (30, HeightTier::H1),
        (29, HeightTier::H2),
        (20, HeightTier::H2),
        (19, HeightTier::H3),
        (15, HeightTier::H3),
        (14, HeightTier::H4),
    ] {
        assert_eq!(Breakpoints::of(area(80, h)).h, tier, "{h}");
    }
    assert!(too_small(area(39, 10)) && too_small(area(40, 9)) && !too_small(area(40, 10)));
}

#[test]
fn a_popup_is_centered_with_a_margin() {
    assert_eq!(
        popup_rect(20, 6, area(80, 24)),
        Rect { x: 30, y: 9, width: 20, height: 6 }
    );
    assert_eq!(
        popup_rect(200, 200, area(40, 10)),
        Rect { x: 1, y: 1, width: 38, height: 8 }
    );
    assert_eq!(popup_rect(0, 0, area(1, 1)), Rect { x: 0, y: 0, width: 1, height: 1 });
}

fn bar(width: u16) -> String {
    render_keybar(area(width, 1), &[("a", "one"), ("b", "two"), ("c", "three")])
        .unwrap()
        .spans
        .iter()
        .map(|s| s.content.as_str())
        .collect()
}

#[test]
fn hints_that_do_not_fit_are_dropped() {
    assert_eq!(bar(80), "a one  b two  c three");
    assert_eq!(bar(21), "a one  b two  c three");
    assert_eq!(bar(20), "a one  b two…");
    assert_eq!(bar(12), "a one…");
    assert_eq!(bar(3), "…");
    assert!(render_keybar(area(80, 0), &[("a", "one")]).is_none());
}

#[test]
fn long_texts_are_cut_with_an_ellipsis() {
    assert_eq!(truncate("hello", 5), "hello");
    assert_eq!(truncate("hello", 4), "hel…");
    assert_eq!(truncate("日本語", 2), "日…");
    assert_eq!(truncate("hello", 0), "");
    assert_eq!(truncate("", 0), "");
}

use vmux::layout::{rect_contains, split_area, split_sidebar, Rect};

fn rect(x: u16, y: u16, width: u16, height: u16) -> Rect {
    Rect { x, y, width, height }
}

#[test]
fn split_area_places_sidebar_on_right() {
    let chunks = split_area(rect(0, 0, 100, 10));
    assert_eq!(chunks[0], rect(0, 0, 76, 10));
    assert_eq!(chunks[1], rect(76, 0, 24, 10));
}

#[test]
fn sidebar_has_an_exit_line_at_its_foot() {
    let chunks = split_sidebar(rect(76, 0, 24, 10));
    assert_eq!(chunks[0], rect(76, 0, 24, 9));
    assert_eq!(chunks[1], rect(76, 9, 24, 1));
}

#[test]
fn parts_fill_the_area_at_every_width() {
    for x in [0u16, 1, 7, 300] {
        for width in 0..400u16 {
            let [pane, sidebar] = split_area(rect(x, 5, width, 8));
            let wanted = if width >= 25 { 24 } else { width.saturating_sub(1) };
            assert_eq!(sidebar, rect(x + width - wanted, 5, wanted, 8));
            assert_eq!(pane, rect(x, 5, width - wanted, 8));
        }
    }
}

#[test]
fn parts_fill_the_sidebar_at_every_height() {
    for y in [0u16, 3, 250] {
        for height in 0..300u16 {
            let [body, exit] = split_sidebar(rect(4, y, 24, height));
            let wanted = if height >= 2 { 1 } else { 0 };
            assert_eq!(exit, rect(4, y + height - wanted, 24, wanted));
            assert_eq!(body, rect(4, y, 24, height - wanted));
        }
    }
}

#[test]
fn areas_at_the_edge_of_the_coordinates_are_cut_off() {
    let [pane, sidebar] = split_area(rect(65_500, 0, 100, 1));
    assert_eq!(pane, rect(65_500, 0, 11, 1));
    assert_eq!(sidebar, rect(65_511, 0, 24, 1));

    let [pane, sidebar] = split_area(rect(65_530, 0, 100, 1));
    assert_eq!(pane, rect(65_530, 0, 1, 1));
    assert_eq!(sidebar, rect(65_531, 0, 4, 1));

    let [pane, sidebar] = split_area(rect(0, 0, u16::MAX, 1));
    assert_eq!(pane, rect(0, 0, u16::MAX - 24, 1));
    assert_eq!(sidebar, rect(u16::MAX - 24, 0, 24, 1));
}

#[test]
fn points_are_told_to_be_inside_or_outside() {
    let area = rect(2, 3, 4, 5);
    assert!(rect_contains(area, 2, 3));
    assert!(rect_contains(area, 5, 7));
    assert!(!rect_contains(area, 6, 7));
    assert!(!rect_contains(area, 5, 8));
    assert!(!rect_contains(area, 1, 3));
    assert!(!rect_contains(area, 2, 2));
    assert!(!rect_contains(rect(2, 3, 0, 5), 2, 3));
    assert!(!rect_contains(rect(65_534, 0, 10, 1), u16::MAX, 0));
    assert!(rect_contains(rect(65_534, 0, 10, 1), 65_534, 0));
}

#[test]
fn breadth_is_kept_as_it_is() {
    let [pane, sidebar] = split_area(rect(0, 65_000, 100, 1_000));
    assert_eq!(pane, rect(0, 65_000, 76, 1_000));
    assert_eq!(sidebar, rect(76, 65_000, 24, 1_000));
    let [body, exit] = split_sidebar(rect(65_000, 0, 1_000, 9));
    assert_eq!(body, rect(65_000, 0, 1_000, 8));
    assert_eq!(exit, rect(65_000, 8, 1_000, 1));
}

#[test]
fn large_areas_are_split_like_small_ones() {
    for width in (400..=u16::MAX).step_by(997) {
        let [pane, sidebar] = split_area(rect(0, 0, width, 1));
        assert_eq!(pane, rect(0, 0, width - 24, 1));
        assert_eq!(sidebar, rect(width - 24, 0, 24, 1));
        let [body, exit] = split_sidebar(rect(0, 0, 1, width));
        assert_eq!(body, rect(0, 0, 1, width - 1));
        assert_eq!(exit, rect(0, width - 1, 1, 1));
    }
}

use ashell::number::Float32;
use ashell::panes::{
    find_path, holds_id, is_filled, parse_direction, restore_pane_layout, save_pane_layout,
    Direction, PaneLayout,
};
use ashell::saved::SavedPaneLayout;

fn number(value: f32) -> Float32 {
    Float32 { bits: value.to_bits() }
}

fn pane(id: &str) -> PaneLayout {
    PaneLayout::Single(id.to_string())
}

fn beside(parts: Vec<PaneLayout>) -> PaneLayout {
    PaneLayout::Vertical(parts, number(0.5))
}

fn below(parts: Vec<PaneLayout>) -> PaneLayout {
    PaneLayout::Horizontal(parts, number(0.5))
}

/// Two panes on the left, one below the other, and one on the right.
fn desk() -> PaneLayout {
    beside(vec![below(vec![pane("a"), pane("b")]), pane("c")])
}

fn ids(layout: &PaneLayout) -> Vec<String> {
    layout.tab_ids()
}

#[test]
fn tabs_are_listed_in_reading_order() {
    assert_eq!(ids(&desk()), vec!["a", "b", "c"]);
    assert_eq!(desk().total_panes(), 3);
    assert!(desk().contains("b"));
    assert!(!desk().contains("d"));
    assert!(holds_id(&ids(&desk()), "c"));
}

#[test]
fn paths_lead_to_panes() {
    let layout = desk();

    assert_eq!(layout.focused_tab_id(&[0, 1]), Some("b".to_string()));
    assert_eq!(layout.focused_tab_id(&[1]), Some("c".to_string()));
    assert_eq!(layout.focused_tab_id(&[0]), None);
    assert_eq!(layout.focused_tab_id(&[2]), None);
    assert_eq!(find_path(&layout, "b"), Some(vec![0, 1]));
    assert_eq!(find_path(&layout, "d"), None);
    assert_eq!(layout.first_leaf_path(), vec![0, 0]);
    assert_eq!(layout.leaf_at_index(1), vec![1]);
}

#[test]
fn splits_know_how_they_run() {
    let layout = desk();

    assert!(layout.is_layout_horizontal_at(&[0]));
    assert!(!layout.is_layout_horizontal_at(&[]));
    assert_eq!(layout.split_ratio_at(&[]), Some(number(0.5)));
    assert_eq!(layout.split_ratio_at(&[1]), None);
}

#[test]
fn going_leads_to_the_pane_on_that_side() {
    let layout = desk();

    assert_eq!(layout.find_adjacent_pane(&[0, 0], "down"), Some(vec![0, 1]));
    assert_eq!(layout.find_adjacent_pane(&[0, 0], "up"), None);
    assert_eq!(layout.find_adjacent_pane(&[0, 1], "right"), Some(vec![1]));
    assert_eq!(layout.find_adjacent_pane(&[1], "left"), Some(vec![0, 0]));
    assert_eq!(layout.find_adjacent_pane(&[1], "sideways"), None);
    assert!(layout.can_find_adjacent_pane(&[0, 1], "right"));
    assert!(!layout.can_find_adjacent_pane(&[7, 1], "right"));
    assert!(layout.can_find_adjacent_pane(&[7, 1], "sideways"));
    assert_eq!(layout.find_adjacent_pane(&[0x1_0000_0001], "left"), Some(vec![0, 0]));
    assert!(!layout.can_find_adjacent_pane(&[0x7fff_ffff], "right"));
    assert_eq!(parse_direction("up"), Some(Direction::Up));
    assert_eq!(parse_direction("Up"), None);
}

#[test]
fn empty_splits_off_the_way_do_no_harm() {
    let layout = beside(vec![pane("a"), pane("b"), below(Vec::new())]);

    assert!(layout.can_find_adjacent_pane(&[0], "right"));
    assert_eq!(layout.find_adjacent_pane(&[0], "right"), Some(vec![1]));
    assert!(!layout.can_find_adjacent_pane(&[1], "right"));
    assert!(layout.can_find_adjacent_pane(&[], "right"));
    assert_eq!(layout.find_adjacent_pane(&[], "right"), None);
    assert_eq!(below(Vec::new()).leaf_at_index(3), Vec::<usize>::new());
    let nested = beside(vec![below(vec![pane("a"), pane("b")]), below(Vec::new())]);
    assert_eq!(nested.find_adjacent_pane(&[0, 1], "right"), Some(vec![1]));
}

#[test]
fn a_pane_is_split_in_four_ways() {
    for (direction, expected, path) in [
        (Direction::Left, vec!["a", "b", "n", "c"], vec![1, 0]),
        (Direction::Right, vec!["a", "b", "c", "n"], vec![1, 1]),
        (Direction::Up, vec!["a", "b", "n", "c"], vec![1, 0]),
        (Direction::Down, vec!["a", "b", "c", "n"], vec![1, 1]),
    ] {
        let mut layout = desk();
        let new_path = layout.split_pane(&[1], "c", "n", direction);
        assert_eq!(ids(&layout), expected);
        assert_eq!(new_path, path);
        assert_eq!(layout.focused_tab_id(&new_path), Some("n".to_string()));
        let below_each_other = matches!(direction, Direction::Up | Direction::Down);
        assert_eq!(layout.is_layout_horizontal_at(&[1]), below_each_other);
    }
}

#[test]
fn replacing_leaves_the_other_panes() {
    let mut layout = desk();
    layout.replace_at(&[0, 1], pane("x"));

    assert_eq!(ids(&layout), vec!["a", "x", "c"]);
}

#[test]
fn removing_a_tab_closes_its_split() {
    let mut layout = desk();
    layout.remove_tab("a");
    assert_eq!(ids(&layout), vec!["b", "c"]);
    assert_eq!(layout.focused_tab_id(&[0]), Some("b".to_string()));
    layout.remove_tab("b");
    assert_eq!(layout.focused_tab_id(&[]), Some("c".to_string()));
}

#[test]
fn shares_are_kept_in_range() {
    let mut layout = desk();
    layout.adjust_split_ratio(&[], number(0.95));
    assert_eq!(layout.split_ratio_at(&[]), Some(number(0.9)));
    layout.adjust_split_ratio(&[0], number(0.01));
    assert_eq!(layout.split_ratio_at(&[0]), Some(number(0.1)));
    layout.adjust_split_ratio(&[0], number(0.3));
    assert_eq!(layout.split_ratio_at(&[0]), Some(number(0.3)));
    assert_eq!(ids(&layout), vec!["a", "b", "c"]);
}

#[test]
fn what_was_saved_comes_back() {
    let restored = restore_pane_layout(&save_pane_layout(&desk()));

    assert_eq!(ids(&restored), vec!["a", "b", "c"]);
    assert!(restored.is_layout_horizontal_at(&[0]));
    assert_eq!(restored.split_ratio_at(&[0]), Some(number(0.5)));
}

#[test]
fn restored_shares_are_kept_in_range() {
    let saved = SavedPaneLayout::Vertical {
        children: vec![
            SavedPaneLayout::Single { tab_id: "a".to_string() },
            SavedPaneLayout::Single { tab_id: "b".to_string() },
        ],
        ratio: number(7.0),
    };

    assert_eq!(restore_pane_layout(&saved).split_ratio_at(&[]), Some(number(0.9)));
}

#[test]
fn empty_splits_are_not_filled() {
    assert!(is_filled(&desk()));
    assert!(!is_filled(&beside(vec![pane("a"), below(Vec::new())])));
}

use iterm2_rs::terminal::pane::{PaneLayout, PaneNode, SplitDirection, HALF_RATIO};

fn layout() -> PaneLayout<()> {
    PaneLayout::new(())
}

fn split(layout: &mut PaneLayout<()>, direction: SplitDirection) -> usize {
    layout.split::<()>(direction, Ok(())).unwrap()
}

#[test]
fn single_pane_count() {
    let layout = layout();
    assert_eq!(layout.pane_count(), 1);
    assert_eq!(layout.collect_pane_ids(), vec![0]);
}

#[test]
fn split_creates_two_panes() {
    let mut layout = layout();
    let new_id = split(&mut layout, SplitDirection::Horizontal);
    assert_eq!(layout.pane_count(), 2);
    assert_eq!(new_id, 1);
    assert_eq!(layout.collect_pane_ids(), vec![0, 1]);
}

#[test]
fn double_split_creates_three_panes() {
    let mut layout = layout();
    split(&mut layout, SplitDirection::Horizontal);
    split(&mut layout, SplitDirection::Vertical);
    assert_eq!(layout.pane_count(), 3);
    assert_eq!(layout.collect_pane_ids(), vec![0, 1, 2]);
}

#[test]
fn close_pane_reduces_count() {
    let mut layout = layout();
    split(&mut layout, SplitDirection::Horizontal);
    assert_eq!(layout.pane_count(), 2);
    assert!(layout.close_active());
    assert_eq!(layout.pane_count(), 1);
}

#[test]
fn cannot_close_last_pane() {
    let mut layout = layout();
    assert!(!layout.close_active());
    assert_eq!(layout.pane_count(), 1);
}

#[test]
fn focus_cycling() {
    let mut layout = layout();
    split(&mut layout, SplitDirection::Horizontal);
    split(&mut layout, SplitDirection::Vertical);
    // IDs: [0, 1, 2], active = 2
    assert_eq!(layout.active_pane_id(), 2);

    layout.focus_next();
    assert_eq!(layout.active_pane_id(), 0); // wraps

    layout.focus_next();
    assert_eq!(layout.active_pane_id(), 1);

    layout.focus_next();
    assert_eq!(layout.active_pane_id(), 2);

    layout.focus_prev();
    assert_eq!(layout.active_pane_id(), 1);

    layout.focus_prev();
    assert_eq!(layout.active_pane_id(), 0);

    layout.focus_prev();
    assert_eq!(layout.active_pane_id(), 2); // wraps back
}

#[test]
fn close_active_focuses_sibling() {
    let mut layout = layout();
    split(&mut layout, SplitDirection::Horizontal);
    layout.close_active();
    assert_eq!(layout.active_pane_id(), 0);
    assert_eq!(layout.pane_count(), 1);
}

#[test]
fn close_middle_pane_in_three() {
    let mut layout = layout();
    split(&mut layout, SplitDirection::Horizontal); // [0, 1], active=1
    assert!(layout.focus_pane(0));
    split(&mut layout, SplitDirection::Vertical); // [0, 2, 1], active=2
    assert_eq!(layout.collect_pane_ids(), vec![0, 2, 1]);

    layout.close_active();
    assert_eq!(layout.pane_count(), 2);
    assert_eq!(layout.active_pane_id(), 1);
    assert_eq!(layout.collect_pane_ids(), vec![0, 1]);
}

#[test]
fn split_builds_an_even_split_node() {
    let mut layout = layout();
    split(&mut layout, SplitDirection::Vertical);
    match layout.root() {
        PaneNode::Split { direction, ratio, first, second } => {
            assert_eq!(*direction, SplitDirection::Vertical);
            assert_eq!(*ratio, HALF_RATIO);
            assert!(matches!(**first, PaneNode::Leaf { id: 0, .. }));
            assert!(matches!(**second, PaneNode::Leaf { id: 1, .. }));
        }
        PaneNode::Leaf { .. } => panic!("expected a split"),
    }
    assert!(!layout.root().is_leaf());
}

#[test]
fn failed_split_uses_up_an_id() {
    let mut layout: PaneLayout<u8> = PaneLayout::new(0);
    assert_eq!(layout.split(SplitDirection::Horizontal, Err("pty")), Err("pty"));
    assert_eq!(layout.pane_count(), 1);
    assert_eq!(layout.active_pane_id(), 0);
    assert_eq!(layout.split::<&str>(SplitDirection::Horizontal, Ok(9)), Ok(2));
    assert_eq!(layout.collect_pane_ids(), vec![0, 2]);
}

#[test]
fn active_pane_is_the_focused_leaf() {
    let mut layout: PaneLayout<&str> = PaneLayout::new("a");
    layout.split::<()>(SplitDirection::Horizontal, Ok("b")).unwrap();
    match layout.active_pane() {
        Some(PaneNode::Leaf { id, pane }) => {
            assert_eq!(*id, 1);
            assert_eq!(*pane, "b");
        }
        _ => panic!("expected the active leaf"),
    }
    if let Some(PaneNode::Leaf { pane, .. }) = layout.active_pane_mut() {
        *pane = "c";
    }
    layout.focus_prev();
    assert_eq!(layout.active_pane_id(), 0);
    layout.focus_next();
    match layout.active_pane() {
        Some(PaneNode::Leaf { pane, .. }) => assert_eq!(*pane, "c"),
        _ => panic!("expected the active leaf"),
    }
    assert!(!layout.focus_pane(42));
    assert_eq!(layout.active_pane_id(), 1);
}

#[test]
fn closing_last_in_order_focuses_previous() {
    let mut layout = layout();
    split(&mut layout, SplitDirection::Horizontal);
    split(&mut layout, SplitDirection::Horizontal); // [0, 1, 2], active = 2
    assert!(layout.close_active());
    assert_eq!(layout.active_pane_id(), 1);
    assert_eq!(layout.collect_pane_ids(), vec![0, 1]);
    assert!(layout.root().find_leaf(2).is_none());
    assert!(layout.root().find_leaf(1).is_some());
}

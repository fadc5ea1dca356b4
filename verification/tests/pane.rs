use nsr_ssh::pane::{clamp_ratio_bits, PaneTree, Tab, HALF_RATIO_BITS, MAX_RATIO_BITS, MIN_RATIO_BITS};

fn leaf(id: u128) -> Box<PaneTree> {
    Box::new(PaneTree::Terminal(id))
}

fn show(t: &PaneTree) -> String {
    format!("{:?}", t)
}

#[test]
fn half_ratio_is_one_half() {
    assert_eq!(f32::from_bits(HALF_RATIO_BITS), 0.5f32);
}

#[test]
fn split_h_replaces_the_target_leaf() {
    let t = PaneTree::Terminal(1).split_h_at(1, 2);
    let want = PaneTree::HSplit { ratio_bits: HALF_RATIO_BITS, left: leaf(1), right: leaf(2) };
    assert_eq!(show(&t), show(&want));
    assert_eq!(t.sessions(), vec![1, 2]);
}

#[test]
fn split_v_inside_a_tree() {
    let t = PaneTree::HSplit { ratio_bits: 7, left: leaf(1), right: leaf(2) };
    let t = t.split_v_at(2, 3);
    let want = PaneTree::HSplit {
        ratio_bits: 7,
        left: leaf(1),
        right: Box::new(PaneTree::VSplit { ratio_bits: HALF_RATIO_BITS, top: leaf(2), bottom: leaf(3) }),
    };
    assert_eq!(show(&t), show(&want));
    assert_eq!(t.sessions(), vec![1, 2, 3]);
}

#[test]
fn split_of_an_absent_session_changes_nothing() {
    let t = PaneTree::VSplit { ratio_bits: 9, top: leaf(1), bottom: leaf(2) };
    let before = show(&t);
    assert_eq!(show(&t.split_h_at(5, 6)), before);
}

#[test]
fn close_pane_prunes_the_tree() {
    let t = PaneTree::HSplit { ratio_bits: 7, left: leaf(1), right: leaf(2) };
    let t = t.close_pane(2).unwrap();
    assert_eq!(show(&t), show(&PaneTree::Terminal(1)));
    assert!(t.close_pane(1).is_none());
    let t = PaneTree::VSplit { ratio_bits: 3, top: leaf(4), bottom: leaf(4) };
    assert!(t.close_pane(4).is_none());
}

#[test]
fn close_undoes_split() {
    let base = PaneTree::VSplit {
        ratio_bits: 11,
        top: leaf(1),
        bottom: Box::new(PaneTree::HSplit { ratio_bits: 12, left: leaf(2), right: leaf(3) }),
    };
    let before = show(&base);
    let split = base.split_h_at(3, 99);
    assert_eq!(split.sessions(), vec![1, 2, 3, 99]);
    let back = split.close_pane(99).unwrap();
    assert_eq!(show(&back), before);
}

#[test]
fn set_ratio_changes_the_split_that_holds_the_session() {
    let inner = PaneTree::HSplit { ratio_bits: 12, left: leaf(2), right: leaf(3) };
    let t = PaneTree::VSplit { ratio_bits: 11, top: leaf(1), bottom: Box::new(inner) };
    let t = t.set_ratio_for(3, 0x3f40_0000);
    let want = PaneTree::VSplit {
        ratio_bits: 0x3f40_0000,
        top: leaf(1),
        bottom: Box::new(PaneTree::HSplit { ratio_bits: 12, left: leaf(2), right: leaf(3) }),
    };
    assert_eq!(show(&t), show(&want));
    let leaf_only = PaneTree::Terminal(5).set_ratio_for(5, 1);
    assert_eq!(show(&leaf_only), show(&PaneTree::Terminal(5)));
}

#[test]
fn set_ratio_for_an_absent_session_changes_nothing() {
    let t = PaneTree::HSplit { ratio_bits: 12, left: leaf(2), right: leaf(3) };
    let before = show(&t);
    assert_eq!(show(&t.set_ratio_for(9, 1)), before);
}

#[test]
fn contains_and_sessions() {
    let t = PaneTree::HSplit {
        ratio_bits: 1,
        left: Box::new(PaneTree::VSplit { ratio_bits: 2, top: leaf(5), bottom: leaf(6) }),
        right: leaf(7),
    };
    assert_eq!(t.sessions(), vec![5, 6, 7]);
    assert!(t.contains(6));
    assert!(!t.contains(8));
}

#[test]
fn new_tab_shows_one_session() {
    let t = Tab::new("web", "web-alias", 42);
    assert_eq!(t.title, "web");
    assert_eq!(t.host_alias, "web-alias");
    assert_eq!(t.active_pane, 42);
    assert_eq!(show(&t.pane_tree), show(&PaneTree::Terminal(42)));
    let u = Tab::new("web", "web-alias", 42);
    assert_ne!(t.id, u.id);
}

#[test]
fn ratio_bounds_are_a_tenth_and_nine_tenths() {
    assert_eq!(f32::from_bits(MIN_RATIO_BITS), 0.1f32);
    assert_eq!(f32::from_bits(MAX_RATIO_BITS), 0.9f32);
}

#[test]
fn ratios_are_clamped_as_f32_clamp_does() {
    for v in [0.5f32, 0.1, 0.9, 0.95, 1.0, 7.5, 0.05, 0.0, -0.0, -0.3, -2.0, f32::INFINITY, f32::NEG_INFINITY, 0.3333] {
        assert_eq!(clamp_ratio_bits(v.to_bits()), v.clamp(0.1, 0.9).to_bits(), "value {}", v);
    }
    assert!(f32::from_bits(clamp_ratio_bits(f32::NAN.to_bits())).is_nan());
}

#[test]
fn set_ratio_clamps_the_new_ratio() {
    let t = PaneTree::HSplit { ratio_bits: HALF_RATIO_BITS, left: leaf(1), right: leaf(2) };
    let t = t.set_ratio_for(1, 2.0f32.to_bits());
    let want = PaneTree::HSplit { ratio_bits: 0.9f32.to_bits(), left: leaf(1), right: leaf(2) };
    assert_eq!(show(&t), show(&want));
    let t = t.set_ratio_for(2, (-1.0f32).to_bits());
    let want = PaneTree::HSplit { ratio_bits: 0.1f32.to_bits(), left: leaf(1), right: leaf(2) };
    assert_eq!(show(&t), show(&want));
}

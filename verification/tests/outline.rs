use gage::outline::{CollapseOutcome, Outline, RowKind};

#[test]
fn new_outline_is_expanded() {
    let o = Outline::new(3);
    assert_eq!(o.len(), 4);
    let rows = o.rows();
    assert_eq!(rows[0].kind, RowKind::Session);
    assert_eq!(rows[0].level, 1);
    assert!(rows[0].has_children && rows[0].expanded);
    for i in 0..3 {
        assert_eq!(rows[i + 1].kind, RowKind::Entry { index: i });
        assert_eq!(rows[i + 1].level, 2);
        assert!(!rows[i + 1].has_children);
    }
    assert!(o.row(4).is_none());
    assert_eq!(o.row(2).map(|r| r.kind), Some(RowKind::Entry { index: 1 }));
}

#[test]
fn toggle_session_hides_and_shows_entries() {
    let mut o = Outline::new(2);
    assert!(o.toggle(0));
    assert_eq!(o.len(), 1);
    assert!(!o.rows()[0].expanded);
    assert!(o.toggle(0));
    assert_eq!(o.len(), 3);
    assert!(!o.toggle(1));
    assert!(!o.toggle(7));
    assert_eq!(o.len(), 3);
}

#[test]
fn empty_session_cannot_expand() {
    let mut o = Outline::new(0);
    assert_eq!(o.len(), 1);
    assert!(!o.rows()[0].has_children);
    assert!(!o.toggle(0));
    assert!(!o.expand(0));
    assert_eq!(o.collapse(0), CollapseOutcome::NoAction);
}

#[test]
fn expand_and_collapse() {
    let mut o = Outline::new(2);
    assert!(!o.expand(0));
    assert_eq!(o.collapse(2), CollapseOutcome::SelectParent(0));
    assert_eq!(o.collapse(0), CollapseOutcome::Collapsed);
    assert_eq!(o.len(), 1);
    assert_eq!(o.collapse(0), CollapseOutcome::NoAction);
    assert_eq!(o.collapse(5), CollapseOutcome::NoAction);
    assert!(o.expand(0));
    assert_eq!(o.len(), 3);
}

fn assert_shape(o: &Outline, n: usize) {
    let rows = o.rows();
    assert_eq!(rows[0].level, 1);
    assert_eq!(rows[0].kind, RowKind::Session);
    assert_eq!(rows[0].has_children, n > 0);
    assert_eq!(o.len(), if rows[0].expanded { n + 1 } else { 1 });
    for i in 1..o.len() {
        assert_eq!(rows[i].level, 2);
        assert!(!rows[i].has_children && !rows[i].expanded);
        assert_eq!(rows[i].kind, RowKind::Entry { index: i - 1 });
    }
}

#[test]
fn shape_survives_any_operations() {
    let mut o = Outline::new(2);
    assert_shape(&o, 2);
    o.toggle(7);
    assert_shape(&o, 2);
    o.collapse(0);
    assert_shape(&o, 2);
    o.expand(9);
    assert_shape(&o, 2);
    o.toggle(0);
    assert_shape(&o, 2);
    o.collapse(2);
    assert_shape(&o, 2);
    let mut e = Outline::new(0);
    e.toggle(0);
    e.collapse(0);
    assert_shape(&e, 0);
}

//! Outline tree state and its visible-row projection.
//!
//! `Outline` owns the tree *shape* (what is expanded, what is visible):
//! a session row at level 1 and, while the session is expanded, one row per
//! entry at level 2. Row content is composed elsewhere, keyed off
//! `RowKind::Entry { index }`.
use vstd::prelude::*;

verus! {

/// What a visible row stands for.
#[derive(Debug, Clone, Copy, PartialEq, Eq)]
pub enum RowKind {
    Session,
    Entry { index: usize },
}

/// One visible row of the outline.
#[derive(Debug, Clone, Copy, PartialEq, Eq)]
pub struct Row {
    pub level: usize,
    pub has_children: bool,
    pub expanded: bool,
    pub kind: RowKind,
}

/// Outcome of a `Left`-style collapse. The caller decides what to do with
/// the selection: collapse may invalidate descendants; "no children to
/// collapse" promotes the gesture into a move-to-parent.
#[derive(Debug, Clone, Copy, PartialEq, Eq)]
pub enum CollapseOutcome {
    /// Subtree collapsed. The caller should clamp selection if it pointed
    /// into the collapsed subtree.
    Collapsed,
    /// No collapse possible here; caller should select this row instead.
    SelectParent(usize),
    /// Nothing to do (no children, no parent).
    NoAction,
}

/// The session row.
pub open spec fn session_row(entry_count: nat, session_expanded: bool) -> Row {
    Row { level: 1, has_children: entry_count > 0, expanded: session_expanded, kind: RowKind::Session }
}

/// The row of entry `i`.
pub open spec fn entry_row(i: int) -> Row {
    Row { level: 2, has_children: false, expanded: false, kind: RowKind::Entry { index: i as usize } }
}

/// The visible rows: the session row, then (while the session is
/// expanded) one row per entry in order.
pub open spec fn outline_rows(entry_count: nat, session_expanded: bool) -> Seq<Row> {
    seq![session_row(entry_count, session_expanded)] + (if session_expanded {
        Seq::new(entry_count, |i: int| entry_row(i))
    } else {
        Seq::empty()
    })
}

/// Whether toggling row `idx` changes anything: only the session row has
/// children, and only when there are entries.
pub open spec fn toggle_changes(entry_count: nat, idx: int) -> bool {
    idx == 0 && entry_count > 0
}

/// Outline tree state plus its visible rows.
pub struct Outline {
    entry_count: usize,
    session_expanded: bool,
    visible: Vec<Row>,
}

impl Outline {
    /// Number of entries under the session.
    pub closed spec fn entry_count(&self) -> nat {
        self.entry_count as nat
    }

    /// Whether the session row is expanded.
    pub closed spec fn session_expanded(&self) -> bool {
        self.session_expanded
    }

    /// The visible rows always match the tree state.
    #[verifier::type_invariant]
    closed spec fn rows_match_state(&self) -> bool {
        &&& self.entry_count < usize::MAX
        &&& self.visible@ == outline_rows(self.entry_count as nat, self.session_expanded)
    }

    /// An outline over `entry_count` entries with the session expanded.
    pub fn new(entry_count: usize) -> (o: Self)
        requires
            entry_count < usize::MAX,
        ensures
            o.entry_count() == entry_count,
            o.session_expanded(),
    {
        Outline { entry_count, session_expanded: true, visible: Self::rebuild(entry_count, true) }
    }

    /// The visible rows, top to bottom.
    pub fn rows(&self) -> (r: &[Row])
        ensures
            r@ == outline_rows(self.entry_count(), self.session_expanded()),
    {
        proof {
            use_type_invariant(self);
        }
        self.visible.as_slice()
    }

    /// The visible row at `idx`, if any.
    pub fn row(&self, idx: usize) -> (r: Option<&Row>)
        ensures
            ({
                let rows = outline_rows(self.entry_count(), self.session_expanded());
                match r {
                    Some(row) => idx < rows.len() && *row == rows[idx as int],
                    None => idx >= rows.len(),
                }
            }),
    {
        proof {
            use_type_invariant(self);
        }
        if idx < self.visible.len() {
            Some(&self.visible[idx])
        } else {
            None
        }
    }

    /// Number of visible rows.
    pub fn len(&self) -> (n: usize)
        ensures
            n == outline_rows(self.entry_count(), self.session_expanded()).len(),
            n == 1 + (if self.session_expanded() {
                self.entry_count()
            } else {
                0
            }),
    {
        proof {
            use_type_invariant(self);
        }
        self.visible.len()
    }

    /// Toggle the selected row's expansion. Returns true if anything
    /// changed.
    pub fn toggle(&mut self, idx: usize) -> (changed: bool)
        ensures
            changed == toggle_changes(old(self).entry_count(), idx as int),
            final(self).entry_count() == old(self).entry_count(),
            final(self).session_expanded() == (old(self).session_expanded() != changed),
    {
        proof {
            use_type_invariant(&*self);
        }
        if idx >= self.visible.len() {
            return false;
        }
        let row = self.visible[idx];
        if !row.has_children {
            return false;
        }
        let expanded = row.expanded;
        self.set_expanded(idx, !expanded);
        true
    }

    /// Expand the selected row if it has children and is currently
    /// collapsed.
    pub fn expand(&mut self, idx: usize) -> (changed: bool)
        ensures
            changed == (toggle_changes(old(self).entry_count(), idx as int)
                && !old(self).session_expanded()),
            final(self).entry_count() == old(self).entry_count(),
            final(self).session_expanded() == (old(self).session_expanded() || changed),
    {
        proof {
            use_type_invariant(&*self);
        }
        if idx >= self.visible.len() {
            return false;
        }
        let row = self.visible[idx];
        if !row.has_children || row.expanded {
            return false;
        }
        self.set_expanded(idx, true);
        true
    }

    /// Collapse the selected row, or, when it has no children to collapse,
    /// tell the caller to move the selection to the parent.
    pub fn collapse(&mut self, idx: usize) -> (outcome: CollapseOutcome)
        ensures
            final(self).entry_count() == old(self).entry_count(),
            ({
                let rows = outline_rows(old(self).entry_count(), old(self).session_expanded());
                if idx >= rows.len() {
                    outcome == CollapseOutcome::NoAction && final(self).session_expanded()
                        == old(self).session_expanded()
                } else if idx == 0 {
                    if old(self).entry_count() > 0 && old(self).session_expanded() {
                        outcome == CollapseOutcome::Collapsed && !final(self).session_expanded()
                    } else {
                        outcome == CollapseOutcome::NoAction && final(self).session_expanded()
                            == old(self).session_expanded()
                    }
                } else {
                    outcome == CollapseOutcome::SelectParent(0) && final(self).session_expanded()
                        == old(self).session_expanded()
                }
            }),
    {
        proof {
            use_type_invariant(&*self);
        }
        if idx >= self.visible.len() {
            return CollapseOutcome::NoAction;
        }
        let row = self.visible[idx];
        if row.has_children && row.expanded {
            self.set_expanded(idx, false);
            return CollapseOutcome::Collapsed;
        }
        if row.level > 1 {
            return CollapseOutcome::SelectParent(self.parent_of(idx));
        }
        CollapseOutcome::NoAction
    }

    /// Sets the expansion of row `idx`; only the session row can expand.
    fn set_expanded(&mut self, idx: usize, expanded: bool)
        ensures
            final(self).entry_count() == old(self).entry_count(),
            final(self).session_expanded() == if idx == 0 {
                expanded
            } else {
                old(self).session_expanded()
            },
    {
        proof {
            use_type_invariant(&*self);
        }
        if idx >= self.visible.len() {
            return ;
        }
        match self.visible[idx].kind {
            RowKind::Session => {
                let entry_count = self.entry_count;
                *self = Outline {
                    entry_count,
                    session_expanded: expanded,
                    visible: Self::rebuild(entry_count, expanded),
                };
            },
            RowKind::Entry { .. } => {},
        }
    }

    /// The nearest row above `idx` whose level is at most one less than
    /// that of row `idx`; row 0 when there is none or `idx` is out of range.
    fn parent_of(&self, idx: usize) -> (p: usize)
        ensures
            ({
                let rows = self.visible@;
                if idx < rows.len() {
                    let parent_level = if rows[idx as int].level >= 1 {
                        rows[idx as int].level - 1
                    } else {
                        0
                    };
                    ||| (p < idx && rows[p as int].level <= parent_level && forall|j: int|
                        p < j < idx ==> #[trigger] rows[j].level > parent_level)
                    ||| (p == 0 && forall|j: int|
                        0 <= j < idx ==> #[trigger] rows[j].level > parent_level)
                } else {
                    p == 0
                }
            }),
    {
        if idx >= self.visible.len() {
            return 0;
        }
        let parent_level = self.visible[idx].level.saturating_sub(1);
        let mut j = idx;
        while j > 0
            invariant
                j <= idx,
                idx < self.visible@.len(),
                parent_level == (if self.visible@[idx as int].level >= 1 {
                    self.visible@[idx as int].level - 1
                } else {
                    0
                }),
                forall|k: int| j <= k < idx ==> #[trigger] self.visible@[k].level > parent_level,
            decreases j,
        {
            j = j - 1;
            if self.visible[j].level <= parent_level {
                return j;
            }
        }
        0
    }

    /// The visible rows for the given tree state.
    fn rebuild(entry_count: usize, session_expanded: bool) -> (rows: Vec<Row>)
        requires
            entry_count < usize::MAX,
        ensures
            rows@ == outline_rows(entry_count as nat, session_expanded),
    {
        let mut rows = Vec::with_capacity(1 + entry_count);
        rows.push(
            Row {
                level: 1,
                has_children: entry_count > 0,
                expanded: session_expanded,
                kind: RowKind::Session,
            },
        );
        if session_expanded {
            let mut i: usize = 0;
            while i < entry_count
                invariant
                    i <= entry_count,
                    rows@ == seq![session_row(entry_count as nat, session_expanded)] + Seq::new(
                        i as nat,
                        |k: int| entry_row(k),
                    ),
                decreases entry_count - i,
            {
                rows.push(Row { level: 2, has_children: false, expanded: false, kind: RowKind::Entry { index: i } });
                i = i + 1;
                assert(rows@ =~= seq![session_row(entry_count as nat, session_expanded)] + Seq::new(
                    i as nat,
                    |k: int| entry_row(k),
                ));
            }
        }
        assert(rows@ =~= outline_rows(entry_count as nat, session_expanded));
        rows
    }
}

/// Toggling the same row twice leaves the outline as it was.
pub proof fn law_toggle_twice(entry_count: nat, session_expanded: bool, idx: int)
    ensures
        ((session_expanded != toggle_changes(entry_count, idx)) != toggle_changes(entry_count, idx))
            == session_expanded,
{
}

/// Collapsing the session row and expanding it again restores the
/// original rows, whenever there is something to collapse.
pub proof fn law_collapse_then_expand(entry_count: nat)
    requires
        entry_count > 0,
    ensures
        toggle_changes(entry_count, 0),
        outline_rows(entry_count, false).len() == 1,
        outline_rows(entry_count, true).len() == 1 + entry_count,
{
}

/// The session row always comes first; while the session is expanded the
/// entries follow in order, each at level 2.
pub proof fn law_rows_layout(entry_count: nat, session_expanded: bool, i: int)
    requires
        session_expanded,
        0 <= i < entry_count,
    ensures
        outline_rows(entry_count, session_expanded)[0].kind == RowKind::Session,
        outline_rows(entry_count, session_expanded)[i + 1] == entry_row(i),
{
}

/// The shape of every outline's rows, whatever was toggled, expanded or
/// collapsed before (every operation keeps the entry count, and `rows`
/// gives `outline_rows` of the current state): the session row at level 1,
/// with children exactly when there are entries; then, only while the
/// session is expanded, one childless, unexpanded level-2 row per entry,
/// in order.
pub proof fn law_outline_shape(entry_count: nat, session_expanded: bool)
    ensures
        ({
            let rows = outline_rows(entry_count, session_expanded);
            &&& rows.len() == if session_expanded {
                entry_count + 1
            } else {
                1
            }
            &&& rows[0] == Row {
                level: 1,
                has_children: entry_count > 0,
                expanded: session_expanded,
                kind: RowKind::Session,
            }
            &&& forall|i: int|
                1 <= i < rows.len() ==> #[trigger] rows[i] == Row {
                    level: 2,
                    has_children: false,
                    expanded: false,
                    kind: RowKind::Entry { index: (i - 1) as usize },
                }
        }),
{
    let rows = outline_rows(entry_count, session_expanded);
    assert forall|i: int| 1 <= i < rows.len() implies #[trigger] rows[i] == Row {
        level: 2,
        has_children: false,
        expanded: false,
        kind: RowKind::Entry { index: (i - 1) as usize },
    } by {
        assert(session_expanded);
        assert(rows[i] == entry_row(i - 1));
    }
}

} // verus!

//! The workspace buttons: their order and their looks.

use vstd::prelude::*;

verus! {

/// A workspace of the compositor, as far as the bar shows it.
#[derive(Debug, Clone, Copy, PartialEq, Eq)]
pub struct Workspace {
    /// The compositor's identifier of the workspace.
    pub id: u64,
    /// Position of the workspace on its monitor, which is also its label.
    pub idx: u8,
    /// Whether the workspace is the one shown on its monitor.
    pub is_active: bool,
    /// Whether the workspace has the keyboard focus.
    pub is_focused: bool,
    /// The window that is active on the workspace, if it has any window.
    pub active_window_id: Option<u64>,
}

/// The style class that tells a workspace's state: focused before active,
/// active before occupied, and empty if it is none of these.
pub open spec fn state_class(workspace: Workspace) -> Seq<char> {
    if workspace.is_focused {
        "workspace-focused"@
    } else if workspace.is_active {
        "workspace-active"@
    } else if workspace.active_window_id is Some {
        "workspace-occupied"@
    } else {
        "workspace-empty"@
    }
}

/// The style classes of a workspace's button: the class of all such
/// buttons, then the class of the workspace's state.
pub fn compute_css_classes(workspace: &Workspace) -> (classes: Vec<&'static str>)
    ensures
        classes.len() == 2,
        classes[0]@ == "workspace-button"@,
        classes[1]@ == state_class(*workspace),
{
    let mut classes: Vec<&'static str> = Vec::new();
    classes.push("workspace-button");
    if workspace.is_focused {
        classes.push("workspace-focused");
    } else if workspace.is_active {
        classes.push("workspace-active");
    } else if workspace.active_window_id.is_some() {
        classes.push("workspace-occupied");
    } else {
        classes.push("workspace-empty");
    }
    classes
}

/// Index of the first workspace that stands further right than `idx`, or
/// the length if none does.
pub open spec fn seat(row: Seq<Workspace>, idx: u8) -> int
    decreases row.len(),
{
    if row.len() == 0 {
        0
    } else if row.first().idx > idx {
        0
    } else {
        1 + seat(row.drop_first(), idx)
    }
}

/// `workspace` put behind every workspace that stands no further right.
pub open spec fn seated(row: Seq<Workspace>, workspace: Workspace) -> Seq<Workspace> {
    row.insert(seat(row, workspace.idx), workspace)
}

/// The workspaces from left to right; workspaces of equal position in the
/// order they had.
pub open spec fn in_order(workspaces: Seq<Workspace>) -> Seq<Workspace>
    decreases workspaces.len(),
{
    if workspaces.len() == 0 {
        workspaces
    } else {
        seated(in_order(workspaces.drop_last()), workspaces.last())
    }
}

/// Position never falls along the row.
pub open spec fn ascending(row: Seq<Workspace>) -> bool {
    forall|i: int, j: int|
        0 <= i < j < row.len() ==> (#[trigger] row[i]).idx <= (#[trigger] row[j]).idx
}

/// What [`seat`] finds: the first workspace further right and none before it.
pub proof fn lemma_seat(row: Seq<Workspace>, idx: u8)
    ensures
        0 <= seat(row, idx) <= row.len(),
        seat(row, idx) < row.len() ==> row[seat(row, idx)].idx > idx,
        forall|j: int| 0 <= j < seat(row, idx) ==> (#[trigger] row[j]).idx <= idx,
    decreases row.len(),
{
    if row.len() > 0 && row.first().idx <= idx {
        let rest = row.drop_first();
        lemma_seat(rest, idx);
        assert forall|j: int| 0 <= j < seat(row, idx) implies (#[trigger] row[j]).idx <= idx by {
            if j > 0 {
                assert(row[j] == rest[j - 1]);
            }
        }
    }
}

/// Ordering keeps the number of workspaces.
pub proof fn lemma_in_order_len(workspaces: Seq<Workspace>)
    ensures
        in_order(workspaces).len() == workspaces.len(),
    decreases workspaces.len(),
{
    if workspaces.len() > 0 {
        lemma_in_order_len(workspaces.drop_last());
        lemma_seat(in_order(workspaces.drop_last()), workspaces.last().idx);
    }
}

/// The ordered row never falls in position, and it is the workspaces
/// rearranged.
pub proof fn lemma_in_order(workspaces: Seq<Workspace>)
    ensures
        ascending(in_order(workspaces)),
        in_order(workspaces).to_multiset() == workspaces.to_multiset(),
    decreases workspaces.len(),
{
    if workspaces.len() > 0 {
        let earlier = workspaces.drop_last();
        let workspace = workspaces.last();
        let row = in_order(earlier);
        let at = seat(row, workspace.idx);
        let longer = in_order(workspaces);
        lemma_in_order(earlier);
        lemma_seat(row, workspace.idx);
        assert forall|i: int, j: int| 0 <= i < j < longer.len() implies (
        #[trigger] longer[i]).idx <= (#[trigger] longer[j]).idx by {
            if j < at {
                assert(longer[i] == row[i] && longer[j] == row[j]);
            } else if j == at {
                assert(longer[i] == row[i]);
            } else if i < at {
                assert(longer[i] == row[i] && longer[j] == row[j - 1]);
            } else if i == at {
                assert(longer[j] == row[j - 1]);
                assert(row[at].idx <= row[j - 1].idx || at == j - 1);
            } else {
                assert(longer[i] == row[i - 1] && longer[j] == row[j - 1]);
            }
        }
        vstd::seq_lib::to_multiset_insert(row, at, workspace);
        vstd::seq_lib::to_multiset_build(earlier, workspace);
        assert(workspaces =~= earlier.push(workspace));
    }
}

/// Brings the workspaces into the order of their positions, from left to
/// right; workspaces of equal position keep the order they had.
pub fn sort_by_index(workspaces: &mut Vec<Workspace>)
    ensures
        final(workspaces)@ == in_order(old(workspaces)@),
        ascending(final(workspaces)@),
        final(workspaces)@.to_multiset() == old(workspaces)@.to_multiset(),
        final(workspaces).len() == old(workspaces).len(),
{
    let ghost before = workspaces@;
    proof {
        lemma_in_order(before);
        lemma_in_order_len(before);
    }
    let mut i: usize = 0;
    proof {
        assert(before.take(0) =~= Seq::empty());
        assert(workspaces@ =~= in_order(before.take(0)) + before.skip(0));
    }
    while i < workspaces.len()
        invariant
            i <= workspaces.len(),
            workspaces.len() == before.len(),
            before == old(workspaces)@,
            workspaces@ == in_order(before.take(i as int)) + before.skip(i as int),
        decreases workspaces.len() - i,
    {
        let ghost row = in_order(before.take(i as int));
        proof {
            lemma_in_order_len(before.take(i as int));
        }
        let workspace = workspaces.remove(i);
        proof {
            assert(workspace == before[i as int]);
            assert(workspaces@ =~= row + before.skip(i as int + 1));
            lemma_seat(row, workspace.idx);
        }
        let mut p: usize = 0;
        while p < i && workspaces[p].idx <= workspace.idx
            invariant
                p <= i < before.len(),
                workspaces.len() + 1 == before.len(),
                row.len() == i,
                workspaces@ == row + before.skip(i as int + 1),
                forall|j: int| 0 <= j < p ==> (#[trigger] row[j]).idx <= workspace.idx,
            decreases i - p,
        {
            assert(row[p as int] == workspaces@[p as int]);
            p += 1;
        }
        proof {
            if p < i {
                assert(row[p as int] == workspaces@[p as int]);
            }
            assert(seat(row, workspace.idx) == p);
        }
        workspaces.insert(p, workspace);
        proof {
            let next = before.take(i as int + 1);
            assert(next.drop_last() =~= before.take(i as int));
            assert(next.last() == before[i as int]);
            assert(in_order(next) == seated(row, workspace));
            assert(workspaces@ =~= in_order(next) + before.skip(i as int + 1));
        }
        i += 1;
    }
    proof {
        assert(before.take(i as int) =~= before);
        assert(workspaces@ =~= in_order(before));
    }
}

} // verus!

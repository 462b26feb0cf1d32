use vbar::workspaces::{focus_workspace_dispatcher, sort_ids, workspace_cells, workspace_ids, WorkspaceCell};

const WORKSPACES: &str = "workspace ID 3 (3) on monitor DP-1:\n\tmonitorID: 0\n\twindows: 1\n\n\
workspace ID 1 (1) on monitor DP-1:\n\tmonitorID: 0\n\twindows: 2\n\n\
workspace ID -98 (special:magic) on monitor DP-1:\n\twindows: 1\n\n\
workspace ID 10 (10) on monitor HDMI-A-1:\n\twindows: 0\n";

const ACTIVE: &str = "workspace ID 1 (1) on monitor DP-1:\n\tmonitorID: 0\n\twindows: 2\n";

#[test]
fn ids_in_reply_order_without_special_workspaces() {
    assert_eq!(workspace_ids(WORKSPACES), vec![3, 1, 10]);
    assert_eq!(workspace_ids(ACTIVE), vec![1]);
}

#[test]
fn ids_need_a_header_and_a_number() {
    assert_eq!(workspace_ids(""), Vec::<i32>::new());
    assert_eq!(workspace_ids("workspace ID \n"), Vec::<i32>::new());
    assert_eq!(workspace_ids("workspace ID x (x)\n"), Vec::<i32>::new());
    assert_eq!(workspace_ids("  workspace ID 4 (4)\n"), Vec::<i32>::new());
    assert_eq!(workspace_ids("workspace ID 0 (0)\r\nworkspace ID 5\r\n"), vec![5]);
    assert_eq!(workspace_ids("workspace ID   7\tfoo"), vec![7]);
    assert_eq!(workspace_ids("workspace ID 99999999999 (x)\n"), Vec::<i32>::new());
    assert_eq!(workspace_ids("workspace id 2 (2)\n"), Vec::<i32>::new());
}

#[test]
fn sort_keeps_every_id() {
    let mut ids = vec![5, -1, 3, 5, 0, i32::MIN, i32::MAX, 3];
    sort_ids(&mut ids);
    assert_eq!(ids, vec![i32::MIN, -1, 0, 3, 3, 5, 5, i32::MAX]);
    let mut empty: Vec<i32> = Vec::new();
    sort_ids(&mut empty);
    assert!(empty.is_empty());
}

#[test]
fn cells_are_sorted_and_mark_the_active_workspace() {
    let cells = workspace_cells(WORKSPACES, ACTIVE);
    assert_eq!(
        cells,
        vec![
            WorkspaceCell { id: 1, active: true },
            WorkspaceCell { id: 3, active: false },
            WorkspaceCell { id: 10, active: false },
        ]
    );
}

#[test]
fn no_active_workspace_marks_nothing() {
    let cells = workspace_cells(WORKSPACES, "");
    assert!(cells.iter().all(|c| !c.active));
    assert_eq!(cells.len(), 3);
    let first_only = workspace_cells(WORKSPACES, "workspace ID 10 (10)\nworkspace ID 3 (3)\n");
    assert_eq!(first_only.iter().filter(|c| c.active).map(|c| c.id).collect::<Vec<_>>(), vec![10]);
}

#[test]
fn focus_dispatcher_names_the_workspace() {
    assert_eq!(focus_workspace_dispatcher(3), "hl.dsp.focus({ workspace = \"3\" })");
    assert_eq!(focus_workspace_dispatcher(12), "hl.dsp.focus({ workspace = \"12\" })");
    assert_eq!(focus_workspace_dispatcher(-98), "hl.dsp.focus({ workspace = \"-98\" })");
}

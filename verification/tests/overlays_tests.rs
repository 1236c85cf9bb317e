use alpine_studio::overlays::{
    overlay_nodes, OverlayFlags, OverlayLabels, OverlayRole, COMMAND_PALETTE_NODE, FILE_TREE_NODE,
    FIND_NODE, NAVIGATION_NODE, SYMBOL_NODE, WINDOW_NODE,
};

#[test]
fn overlays_are_listed_in_order_with_focus_on_its_owner() {
    let present = OverlayFlags {
        file_tree: true,
        find: true,
        quick_open: false,
        project_search: false,
        command_palette: true,
    };
    let labels = OverlayLabels {
        completion: None,
        navigation: Some((String::from("Go to definition"), true)),
        symbol: Some((String::from("Symbols"), false)),
        workspace_edit: None,
    };
    let nodes = overlay_nodes(present, labels, Some(COMMAND_PALETTE_NODE));
    let ids: Vec<u64> = nodes.iter().map(|node| node.id).collect();
    assert_eq!(ids, vec![FILE_TREE_NODE, FIND_NODE, COMMAND_PALETTE_NODE, NAVIGATION_NODE, SYMBOL_NODE]);
    assert_eq!(nodes[0].name, "Files");
    assert_eq!(nodes[0].role, OverlayRole::FileTree);
    assert_eq!(nodes[1].role, OverlayRole::SearchField);
    assert_eq!(nodes[1].name, "Find in document");
    assert!(nodes[2].focused);
    assert!(!nodes[0].focused && !nodes[1].focused && !nodes[3].focused);
    assert_eq!(nodes[3].activate, Some(true));
    assert_eq!(nodes[4].activate, None);
    assert!(nodes[3].selected && nodes[3].announces);
    assert!(!nodes[0].selected && !nodes[0].announces);
    assert!(nodes.iter().all(|node| node.parent == WINDOW_NODE));
}

#[test]
fn nothing_showing_lists_no_overlay() {
    assert!(overlay_nodes(OverlayFlags::default(), OverlayLabels::default(), None).is_empty());
}

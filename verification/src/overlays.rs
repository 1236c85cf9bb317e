//! Which overlays the accessibility tree lists above the editor, in what
//! order, and which of them holds focus.
use vstd::prelude::*;
use vstd::string::StringExecFns;

verus! {

/// Node of the file tree overlay.
pub const FILE_TREE_NODE: u64 = 4;
/// Node of the find field.
pub const FIND_NODE: u64 = 5;
/// Node of the quick-open dialog.
pub const QUICK_OPEN_NODE: u64 = 6;
/// Node of the project search dialog.
pub const PROJECT_SEARCH_NODE: u64 = 7;
/// Node of the command palette.
pub const COMMAND_PALETTE_NODE: u64 = 8;
/// Node of the completion list.
pub const COMPLETION_NODE: u64 = 10;
/// Node of the navigation list.
pub const NAVIGATION_NODE: u64 = 11;
/// Node of the symbol list.
pub const SYMBOL_NODE: u64 = 12;
/// Node of the workspace edit preview.
pub const WORKSPACE_EDIT_NODE: u64 = 13;
/// The window, parent of every overlay.
pub const WINDOW_NODE: u64 = 1;

/// What an overlay is to assistive technology.
#[derive(Clone, Copy, Debug, Eq, PartialEq, Structural)]
pub enum OverlayRole {
    FileTree,
    SearchField,
    Dialog,
}

/// Which of the fixed overlays are showing.
#[derive(Clone, Copy, Debug, Default, Eq, PartialEq, Structural)]
pub struct OverlayFlags {
    pub file_tree: bool,
    pub find: bool,
    pub quick_open: bool,
    pub project_search: bool,
    pub command_palette: bool,
}

/// The language overlays that are showing, by their labels; navigation and
/// symbol lists also say whether they have a target to go to.
#[derive(Clone, Debug, Default)]
pub struct OverlayLabels {
    pub completion: Option<String>,
    pub navigation: Option<(String, bool)>,
    pub symbol: Option<(String, bool)>,
    pub workspace_edit: Option<String>,
}

/// One overlay node of the accessibility tree.
#[derive(Clone, Debug)]
pub struct OverlayNode {
    pub id: u64,
    pub parent: u64,
    pub role: OverlayRole,
    pub name: String,
    pub focused: bool,
    pub selected: bool,
    pub announces: bool,
    pub activate: Option<bool>,
}

/// An overlay node, as values.
pub struct OverlayNodeModel {
    pub id: u64,
    pub parent: u64,
    pub role: OverlayRole,
    pub name: Seq<char>,
    pub focused: bool,
    pub selected: bool,
    pub announces: bool,
    pub activate: Option<bool>,
}

impl View for OverlayNode {
    type V = OverlayNodeModel;

    open spec fn view(&self) -> OverlayNodeModel {
        OverlayNodeModel {
            id: self.id,
            parent: self.parent,
            role: self.role,
            name: self.name@,
            focused: self.focused,
            selected: self.selected,
            announces: self.announces,
            activate: self.activate,
        }
    }
}

/// A fixed overlay's node, when it is showing.
pub open spec fn fixed_node(present: bool, id: u64, role: OverlayRole, name: Seq<char>, focus_owner: Option<u64>) -> Seq<
    OverlayNodeModel,
> {
    if present {
        seq![OverlayNodeModel {
            id,
            parent: WINDOW_NODE,
            role,
            name,
            focused: focus_owner == Some(id),
            selected: false,
            announces: false,
            activate: None,
        }]
    } else {
        Seq::empty()
    }
}

/// A language overlay's node, when it is showing: a selected dialog that
/// announces itself, activatable when it has a target.
pub open spec fn language_node(label: Option<Seq<char>>, id: u64, target: bool, focus_owner: Option<u64>) -> Seq<
    OverlayNodeModel,
> {
    match label {
        Some(name) => seq![OverlayNodeModel {
            id,
            parent: WINDOW_NODE,
            role: OverlayRole::Dialog,
            name,
            focused: focus_owner == Some(id),
            selected: true,
            announces: true,
            activate: if target {
                Some(true)
            } else {
                None
            },
        }],
        None => Seq::empty(),
    }
}

/// The overlay nodes, in order: file tree, find, quick open, project
/// search, command palette, then completion, navigation, symbols and the
/// workspace edit preview; each only when showing, and focused when it
/// owns focus.
pub open spec fn overlay_spec(present: OverlayFlags, labels: OverlayLabels, focus_owner: Option<u64>) -> Seq<
    OverlayNodeModel,
> {
    fixed_node(present.file_tree, FILE_TREE_NODE, OverlayRole::FileTree, "Files"@, focus_owner)
        + fixed_node(present.find, FIND_NODE, OverlayRole::SearchField, "Find in document"@, focus_owner)
        + fixed_node(present.quick_open, QUICK_OPEN_NODE, OverlayRole::Dialog, "Quick open"@, focus_owner)
        + fixed_node(present.project_search, PROJECT_SEARCH_NODE, OverlayRole::Dialog, "Project search"@, focus_owner)
        + fixed_node(present.command_palette, COMMAND_PALETTE_NODE, OverlayRole::Dialog, "Command palette"@, focus_owner)
        + language_node(
        match labels.completion {
            Some(l) => Some(l@),
            None => None,
        },
        COMPLETION_NODE,
        false,
        focus_owner,
    ) + language_node(
        match labels.navigation {
            Some(l) => Some(l.0@),
            None => None,
        },
        NAVIGATION_NODE,
        match labels.navigation {
            Some(l) => l.1,
            None => false,
        },
        focus_owner,
    ) + language_node(
        match labels.symbol {
            Some(l) => Some(l.0@),
            None => None,
        },
        SYMBOL_NODE,
        match labels.symbol {
            Some(l) => l.1,
            None => false,
        },
        focus_owner,
    ) + language_node(
        match labels.workspace_edit {
            Some(l) => Some(l@),
            None => None,
        },
        WORKSPACE_EDIT_NODE,
        false,
        focus_owner,
    )
}

/// The text of an optional label.
pub open spec fn label_view(label: Option<String>) -> Option<Seq<char>> {
    match label {
        Some(l) => Some(l@),
        None => None,
    }
}

/// The views of `nodes`.
pub open spec fn nodes_view(nodes: Seq<OverlayNode>) -> Seq<OverlayNodeModel> {
    nodes.map_values(|n: OverlayNode| n@)
}

fn push_fixed(nodes: &mut Vec<OverlayNode>, present: bool, id: u64, role: OverlayRole, name: &str, focus_owner: Option<u64>)
    ensures
        nodes_view(final(nodes)@) == nodes_view(old(nodes)@) + fixed_node(present, id, role, name@, focus_owner),
{
    if present {
        let ghost before = nodes@;
        nodes.push(
            OverlayNode {
                id,
                parent: WINDOW_NODE,
                role,
                name: String::from_str(name),
                focused: focus_owner == Some(id),
                selected: false,
                announces: false,
                activate: None,
            },
        );
        assert(nodes_view(nodes@) =~= nodes_view(before) + fixed_node(present, id, role, name@, focus_owner));
    } else {
        assert(nodes_view(nodes@) =~= nodes_view(old(nodes)@) + fixed_node(present, id, role, name@, focus_owner));
    }
}

fn push_language(nodes: &mut Vec<OverlayNode>, label: Option<String>, id: u64, target: bool, focus_owner: Option<u64>)
    ensures
        nodes_view(final(nodes)@) == nodes_view(old(nodes)@) + language_node(label_view(label), id, target, focus_owner),
{
    let ghost name = label_view(label);
    match label {
        Some(l) => {
            let ghost before = nodes@;
            nodes.push(
                OverlayNode {
                    id,
                    parent: WINDOW_NODE,
                    role: OverlayRole::Dialog,
                    name: l,
                    focused: focus_owner == Some(id),
                    selected: true,
                    announces: true,
                    activate: if target {
                        Some(true)
                    } else {
                        None
                    },
                },
            );
            assert(nodes_view(nodes@) =~= nodes_view(before) + language_node(name, id, target, focus_owner));
        },
        None => {
            assert(nodes_view(nodes@) =~= nodes_view(old(nodes)@) + language_node(name, id, target, focus_owner));
        },
    }
}

/// The overlay nodes of the accessibility tree for the overlays that are
/// showing, with `focus_owner` the node that holds focus, if any.
pub fn overlay_nodes(present: OverlayFlags, labels: OverlayLabels, focus_owner: Option<u64>) -> (n: Vec<OverlayNode>)
    ensures
        nodes_view(n@) == overlay_spec(present, labels, focus_owner),
{
    let mut nodes: Vec<OverlayNode> = Vec::new();
    assert(nodes_view(nodes@) =~= Seq::<OverlayNodeModel>::empty());
    push_fixed(&mut nodes, present.file_tree, FILE_TREE_NODE, OverlayRole::FileTree, "Files", focus_owner);
    push_fixed(&mut nodes, present.find, FIND_NODE, OverlayRole::SearchField, "Find in document", focus_owner);
    push_fixed(&mut nodes, present.quick_open, QUICK_OPEN_NODE, OverlayRole::Dialog, "Quick open", focus_owner);
    push_fixed(
        &mut nodes,
        present.project_search,
        PROJECT_SEARCH_NODE,
        OverlayRole::Dialog,
        "Project search",
        focus_owner,
    );
    push_fixed(
        &mut nodes,
        present.command_palette,
        COMMAND_PALETTE_NODE,
        OverlayRole::Dialog,
        "Command palette",
        focus_owner,
    );
    let OverlayLabels { completion, navigation, symbol, workspace_edit } = labels;
    push_language(&mut nodes, completion, COMPLETION_NODE, false, focus_owner);
    let (navigation_label, navigation_target) = match navigation {
        Some((label, target)) => (Some(label), target),
        None => (None, false),
    };
    push_language(&mut nodes, navigation_label, NAVIGATION_NODE, navigation_target, focus_owner);
    let (symbol_label, symbol_target) = match symbol {
        Some((label, target)) => (Some(label), target),
        None => (None, false),
    };
    push_language(&mut nodes, symbol_label, SYMBOL_NODE, symbol_target, focus_owner);
    push_language(&mut nodes, workspace_edit, WORKSPACE_EDIT_NODE, false, focus_owner);
    nodes
}

} // verus!

//! Which nodes of the device tree are disks to track, and under which path each is opened.

use crate::device_type::{device_type_of, parse_device_type, DIRECT_ACCESS, OPTICAL};
use vstd::prelude::*;
use vstd::string::StringExecFns;

verus! {

/// The directory whose entries are the nodes of the device tree.
pub const DEVICE_TREE: &'static str = "/sys/bus/scsi/devices";

/// The name of the subdirectory of a node that lists its block devices.
pub const BLOCK_DIRECTORY: &'static str = "block";

/// The name of the classifier file of a node.
pub const TYPE_FILE: &'static str = "type";

/// What was found at one node of the device tree.
#[derive(Debug, PartialEq, Eq)]
pub struct DeviceNode {
    /// Whether the node has a `block` subdirectory.
    pub block_present: bool,
    /// Whether the node has a `type` classifier.
    pub type_present: bool,
    /// The contents of the classifier; of no account where the node lacks one of the two.
    pub type_text: String,
    /// The names found in the `block` subdirectory, in the order they were listed; of no
    /// account where the node is not direct-access storage.
    pub block_entries: Vec<String>,
}

/// A [`DeviceNode`] as contracts see it.
pub struct NodeView {
    /// Whether the node has a `block` subdirectory.
    pub block_present: bool,
    /// Whether the node has a `type` classifier.
    pub type_present: bool,
    /// The contents of the classifier.
    pub type_text: Seq<char>,
    /// The names found in the `block` subdirectory.
    pub block_entries: Seq<Seq<char>>,
}

/// What is made of a node.
#[derive(Clone, Copy, Debug, PartialEq, Eq)]
pub enum Selection {
    /// The node lacks its `block` subdirectory or its classifier and is passed over.
    Malformed,
    /// The node has both, but its classifier does not hold a device type.
    Unreadable,
    /// The node is of another class than direct-access storage and is passed over.
    Excluded,
    /// The node is direct-access storage: what its `block` subdirectory names is tracked.
    DirectAccess,
}

/// Why no list of disks could be made.
#[derive(Clone, Copy, Debug, PartialEq, Eq)]
pub enum DiscoverError {
    /// The classifier of the node at `node` does not hold a device type.
    UnreadableType { node: usize },
}

impl View for DeviceNode {
    type V = NodeView;

    open spec fn view(&self) -> NodeView {
        NodeView {
            block_present: self.block_present,
            type_present: self.type_present,
            type_text: self.type_text@,
            block_entries: self.block_entries.deep_view(),
        }
    }
}

impl DeepView for DeviceNode {
    type V = NodeView;

    open spec fn deep_view(&self) -> NodeView {
        self@
    }
}

/// The path under which the device named `name` is opened.
pub open spec fn device_path_of(name: Seq<char>) -> Seq<char> {
    "/dev/"@ + name
}

impl NodeView {
    /// Whether the node has both its `block` subdirectory and its classifier.
    pub open spec fn well_formed(self) -> bool {
        self.block_present && self.type_present
    }

    /// What is made of the node.
    pub open spec fn selection(self) -> Selection {
        if !self.well_formed() {
            Selection::Malformed
        } else {
            match device_type_of(self.type_text) {
                None => Selection::Unreadable,
                Some(device_type) => if device_type == DIRECT_ACCESS {
                    Selection::DirectAccess
                } else {
                    Selection::Excluded
                },
            }
        }
    }

    /// The paths of the disks that the node stands for: one for each name in the `block`
    /// subdirectory of direct-access storage, and none for any other node.
    pub open spec fn paths(self) -> Seq<Seq<char>> {
        if self.selection() == Selection::DirectAccess {
            Seq::new(self.block_entries.len(), |i: int| device_path_of(self.block_entries[i]))
        } else {
            Seq::empty()
        }
    }
}

/// The paths of the disks among `nodes`: those of the first node, then those of the second,
/// and so on.
pub open spec fn discovered(nodes: Seq<NodeView>) -> Seq<Seq<char>>
    decreases nodes.len(),
{
    if nodes.len() == 0 {
        Seq::empty()
    } else {
        discovered(nodes.drop_last()) + nodes.last().paths()
    }
}

/// Whether every classifier that counts holds a device type.
pub open spec fn all_readable(nodes: Seq<NodeView>) -> bool {
    forall|i: int| 0 <= i < nodes.len() ==> (#[trigger] nodes[i]).selection() != Selection::Unreadable
}

impl DeviceNode {
    /// Whether the node has both its `block` subdirectory and its classifier, so that the
    /// classifier is worth reading.
    pub fn is_well_formed(&self) -> (well_formed: bool)
        ensures
            well_formed == self@.well_formed(),
    {
        self.block_present && self.type_present
    }

    /// Tells what is made of the node.
    pub fn classify(&self) -> (selection: Selection)
        ensures
            selection == self@.selection(),
    {
        if !self.is_well_formed() {
            return Selection::Malformed;
        }
        match parse_device_type(self.type_text.as_str()) {
            None => Selection::Unreadable,
            Some(device_type) => if device_type == DIRECT_ACCESS {
                Selection::DirectAccess
            } else {
                Selection::Excluded
            },
        }
    }
}

/// The path under which the device named `name` is opened.
pub fn device_path(name: &str) -> (path: String)
    ensures
        path@ == device_path_of(name@),
{
    let mut path = String::from_str("/dev/");
    path.append(name);
    path
}

/// Lists the disks to track: for every node that is direct-access storage, in the order of
/// `nodes`, the path of each name in its `block` subdirectory. A node that lacks the
/// subdirectory or the classifier, or is of another class, adds nothing. The first node
/// whose classifier holds no device type ends the discovery with an error.
pub fn discover(nodes: &Vec<DeviceNode>) -> (result: Result<Vec<String>, DiscoverError>)
    ensures
        match result {
            Ok(paths) => {
                &&& all_readable(nodes.deep_view())
                &&& paths.deep_view() == discovered(nodes.deep_view())
            },
            Err(DiscoverError::UnreadableType { node }) => {
                &&& node < nodes.len()
                &&& nodes[node as int]@.selection() == Selection::Unreadable
                &&& all_readable(nodes.deep_view().take(node as int))
            },
        },
{
    let ghost views = nodes.deep_view();
    let mut paths: Vec<String> = Vec::new();
    let mut at: usize = 0;
    while at < nodes.len()
        invariant
            at <= nodes.len(),
            views == nodes.deep_view(),
            all_readable(views.take(at as int)),
            paths.deep_view() =~= discovered(views.take(at as int)),
        decreases nodes.len() - at,
    {
        let node = &nodes[at];
        assert(views[at as int] == node@);
        assert(views.take(at + 1).drop_last() =~= views.take(at as int));
        assert(views.take(at + 1).last() == node@);
        match node.classify() {
            Selection::Unreadable => {
                return Err(DiscoverError::UnreadableType { node: at });
            },
            Selection::DirectAccess => {
                let ghost before = paths.deep_view();
                let mut entry: usize = 0;
                while entry < node.block_entries.len()
                    invariant
                        entry <= node.block_entries.len(),
                        node@.selection() == Selection::DirectAccess,
                        paths.deep_view() =~= before + node@.paths().take(entry as int),
                    decreases node.block_entries.len() - entry,
                {
                    let ghost old_paths = paths.deep_view();
                    let path = device_path(node.block_entries[entry].as_str());
                    assert(path@ == node@.paths()[entry as int]);
                    paths.push(path);
                    assert(paths.deep_view() =~= old_paths.push(path@));
                    assert(node@.paths().take(entry + 1) =~= node@.paths().take(
                        entry as int,
                    ).push(path@));
                    entry += 1;
                }
                assert(node@.paths().take(entry as int) =~= node@.paths());
            },
            _ => {},
        }
        assert forall|i: int| 0 <= i < at + 1 implies (#[trigger] views.take(
            at + 1,
        )[i]).selection() != Selection::Unreadable by {
            if i < at {
                assert(views.take(at + 1)[i] == views.take(at as int)[i]);
            }
        }
        at += 1;
    }
    assert(views.take(at as int) =~= views);
    Ok(paths)
}

/// An optical drive is never tracked, nor any node of another class than direct-access
/// storage; a direct-access node with its `block` subdirectory always is.
pub proof fn lemma_selection_goes_by_type(node: NodeView)
    ensures
        device_type_of(node.type_text) == Some(OPTICAL) ==> node.paths() == Seq::<
            Seq<char>,
        >::empty(),
        node.selection() != Selection::DirectAccess ==> node.paths() == Seq::<Seq<char>>::empty(),
        node.block_present && node.type_present && device_type_of(node.type_text) == Some(
            DIRECT_ACCESS,
        ) ==> node.selection() == Selection::DirectAccess && node.paths().len()
            == node.block_entries.len(),
{
}

/// Every disk that is discovered was named by a direct-access node: the path at `place`
/// among the discovered is that of the entry `origin.1` of the node `origin.0`.
pub proof fn lemma_discovered_was_selected(nodes: Seq<NodeView>, place: int) -> (origin: (
    int,
    int,
))
    requires
        0 <= place < discovered(nodes).len(),
    ensures
        0 <= origin.0 < nodes.len(),
        nodes[origin.0].selection() == Selection::DirectAccess,
        0 <= origin.1 < nodes[origin.0].block_entries.len(),
        discovered(nodes)[place] == device_path_of(nodes[origin.0].block_entries[origin.1]),
    decreases nodes.len(),
{
    let earlier = discovered(nodes.drop_last());
    if place < earlier.len() {
        lemma_discovered_was_selected(nodes.drop_last(), place)
    } else {
        (nodes.len() - 1, place - earlier.len())
    }
}

/// Every name in the `block` subdirectory of a direct-access node is discovered.
pub proof fn lemma_selected_is_discovered(nodes: Seq<NodeView>, node: int, entry: int)
    requires
        0 <= node < nodes.len(),
        nodes[node].selection() == Selection::DirectAccess,
        0 <= entry < nodes[node].block_entries.len(),
    ensures
        discovered(nodes).contains(device_path_of(nodes[node].block_entries[entry])),
    decreases nodes.len(),
{
    let earlier = discovered(nodes.drop_last());
    if node == nodes.len() - 1 {
        assert(discovered(nodes)[earlier.len() + entry] == device_path_of(
            nodes[node].block_entries[entry],
        ));
    } else {
        lemma_selected_is_discovered(nodes.drop_last(), node, entry);
        let place = choose|place: int|
            0 <= place < earlier.len() && earlier[place] == device_path_of(
                nodes[node].block_entries[entry],
            );
        assert(discovered(nodes)[place] == earlier[place]);
    }
}

} // verus!

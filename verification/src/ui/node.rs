//! The nodes drawn on the map: what a pointer over them hits and what a right click does.
use vstd::prelude::*;

use crate::geometry::Coord;

verus! {

/// What the pointer is over among the nodes drawn on the map: a node's handle, a node with no
/// connection, or a connection between nodes.
#[derive(Debug, Default)]
pub struct NodeOverlayHit {
    pub handle: Option<Coord>,
    pub standalone: Option<Coord>,
    pub connection: Option<Vec<Coord>>,
}

#[derive(Debug)]
pub enum NodeRightClick<'a> {
    DeleteStandalone(Coord),
    DeleteConnection(&'a Vec<Coord>),
    Menu,
}

/// With the node tool and no shift, a right click deletes the lone node or else the connection
/// under the pointer; otherwise it opens the context menu.
pub fn node_right_click<'a>(node_tool: bool, shift: bool, hit: &'a NodeOverlayHit) -> (click:
    NodeRightClick<'a>)
    ensures
        node_tool && !shift && hit.standalone is Some ==> (click matches NodeRightClick::DeleteStandalone(c)
            && c == hit.standalone->0),
        node_tool && !shift && hit.standalone is None && hit.connection is Some ==> (click matches NodeRightClick::DeleteConnection(
            connection,
        ) && connection@ == hit.connection->0@),
        !(node_tool && !shift && (hit.standalone is Some || hit.connection is Some)) ==> click is Menu,
{
    if node_tool && !shift {
        if let Some(coord) = hit.standalone {
            return NodeRightClick::DeleteStandalone(coord);
        }
        if let Some(connection) = &hit.connection {
            return NodeRightClick::DeleteConnection(connection);
        }
    }
    NodeRightClick::Menu
}

} // verus!

verus! {

/// The nodes drawn on the map: every node, the segments between two nodes, and the connections,
/// each a chain of nodes from one end to the other.
#[derive(Debug)]
pub struct NodeOverlay {
    pub nodes: Vec<Coord>,
    pub segments: Vec<(Coord, Coord)>,
    pub connections: Vec<Vec<Coord>>,
}

/// Whether `node` is the first or the last node of `connection`.
pub open spec fn ends_at(connection: Seq<Coord>, node: Coord) -> bool {
    connection.len() > 0 && (connection[0] == node || connection.last() == node)
}

/// The connection at `index` is the only one of `connections` that ends at `node`.
pub open spec fn only_one_ending_at(connections: Seq<Vec<Coord>>, node: Coord, index: int) -> bool {
    &&& 0 <= index < connections.len()
    &&& ends_at(connections[index]@, node)
    &&& forall|j: int| 0 <= j < connections.len() && j != index ==> !ends_at(#[trigger] connections[j]@, node)
}

/// Whether `node` is one end of a segment.
pub open spec fn on_a_segment(segments: Seq<(Coord, Coord)>, node: Coord) -> bool {
    exists|i: int| 0 <= i < segments.len() && segment_ends_at(#[trigger] segments[i], node)
}

/// Whether `node` is one end of `segment`.
pub open spec fn segment_ends_at(segment: (Coord, Coord), node: Coord) -> bool {
    segment.0 == node || segment.1 == node
}

fn connection_ends_at(connection: &Vec<Coord>, node: Coord) -> (ends: bool)
    ensures
        ends == ends_at(connection@, node),
{
    let n = connection.len();
    n > 0 && (connection[0] == node || connection[n - 1] == node)
}

/// The connection that a node's handle picks: the one connection that starts or ends at the
/// node, and none where no connection or several (a junction) do.
pub fn attached_connection(connections: &Vec<Vec<Coord>>, node: Coord) -> (index: Option<usize>)
    ensures
        index matches Some(i) ==> only_one_ending_at(connections@, node, i as int),
        index is None ==> forall|i: int| !only_one_ending_at(connections@, node, i),
{
    let mut first: Option<usize> = None;
    let mut k: usize = 0;
    while k < connections.len()
        invariant
            k <= connections.len(),
            first matches Some(i) ==> i < k && ends_at(connections@[i as int]@, node) && forall|j: int|
                0 <= j < k && j != i ==> !ends_at(#[trigger] connections@[j]@, node),
            first is None ==> forall|j: int| 0 <= j < k ==> !ends_at(#[trigger] connections@[j]@, node),
        decreases connections.len() - k,
    {
        if connection_ends_at(&connections[k], node) {
            if let Some(i) = first {
                proof {
                    assert forall|m: int| !only_one_ending_at(connections@, node, m) by {
                        if only_one_ending_at(connections@, node, m) {
                            if m == i as int {
                                assert(!ends_at(connections@[k as int]@, node));
                            } else {
                                assert(!ends_at(connections@[i as int]@, node));
                            }
                        }
                    }
                }
                return None;
            }
            first = Some(k);
        }
        k = k + 1;
    }
    first
}

/// Whether `node` is an end of one of `segments`.
pub fn touches_segment(segments: &Vec<(Coord, Coord)>, node: Coord) -> (touches: bool)
    ensures
        touches == on_a_segment(segments@, node),
{
    let mut k: usize = 0;
    while k < segments.len()
        invariant
            k <= segments.len(),
            forall|i: int| 0 <= i < k ==> !segment_ends_at(#[trigger] segments@[i], node),
        decreases segments.len() - k,
    {
        if segments[k].0 == node || segments[k].1 == node {
            assert(segment_ends_at(segments@[k as int], node));
            return true;
        }
        k = k + 1;
    }
    false
}

fn copy_connection(connection: &Vec<Coord>) -> (copy: Vec<Coord>)
    ensures
        copy@ == connection@,
{
    let mut copy: Vec<Coord> = Vec::new();
    let mut k: usize = 0;
    while k < connection.len()
        invariant
            k <= connection.len(),
            copy@ == connection@.take(k as int),
        decreases connection.len() - k,
    {
        copy.push(connection[k]);
        k = k + 1;
        assert(copy@ =~= connection@.take(k as int));
    }
    assert(copy@ =~= connection@);
    copy
}

/// The connection index a hit picks: with a node under the pointer, the one connection ending
/// there; otherwise the nearest connection, and failing that the one on the hovered tile.
pub open spec fn picked_connection(
    connections: Seq<Vec<Coord>>,
    hovered: Option<Coord>,
    nearest: Option<usize>,
    on_tile: Option<usize>,
) -> Option<int> {
    match hovered {
        Some(node) => if exists|i: int| only_one_ending_at(connections, node, i) {
            Some(choose|i: int| only_one_ending_at(connections, node, i))
        } else {
            None
        },
        None => match nearest {
            Some(i) => Some(i as int),
            None => match on_tile {
                Some(i) => Some(i as int),
                None => None,
            },
        },
    }
}

/// What the pointer is over, from what the float geometry found: the node whose handle is
/// under the pointer (`hovered`), the connection nearest to it within reach (`nearest`) and the
/// connection running through the hovered tile (`on_tile`). Nothing is hit while the overlay
/// takes no input. A hovered node is reported as standalone when no segment ends at it.
pub fn resolve_node_hit(
    overlay: &NodeOverlay,
    hovered: Option<Coord>,
    nearest: Option<usize>,
    on_tile: Option<usize>,
    interactive: bool,
) -> (hit: NodeOverlayHit)
    ensures
        !interactive ==> hit.handle is None && hit.standalone is None && hit.connection is None,
        interactive ==> hit.handle == hovered,
        interactive ==> hit.standalone == (match hovered {
            Some(node) => if on_a_segment(overlay.segments@, node) { None } else { Some(node) },
            None => None,
        }),
        interactive ==> match picked_connection(overlay.connections@, hovered, nearest, on_tile) {
            Some(i) => if 0 <= i < overlay.connections.len() {
                hit.connection matches Some(c) && c@ == overlay.connections@[i]@
            } else {
                hit.connection is None
            },
            None => hit.connection is None,
        },
{
    if !interactive {
        return NodeOverlayHit { handle: None, standalone: None, connection: None };
    }
    let index = match hovered {
        Some(node) => attached_connection(&overlay.connections, node),
        None => match nearest {
            Some(i) => Some(i),
            None => on_tile,
        },
    };
    proof {
        if let Some(node) = hovered {
            if let Some(i) = index {
                assert forall|m: int| only_one_ending_at(overlay.connections@, node, m) implies m
                    == i as int by {
                    if m != i as int {
                        assert(!ends_at(overlay.connections@[m]@, node));
                    }
                }
            }
        }
    }
    let standalone = match hovered {
        Some(node) => if touches_segment(&overlay.segments, node) {
            None
        } else {
            Some(node)
        },
        None => None,
    };
    let connection = match index {
        Some(i) => if i < overlay.connections.len() {
            Some(copy_connection(&overlay.connections[i]))
        } else {
            None
        },
        None => None,
    };
    NodeOverlayHit { handle: hovered, standalone, connection }
}

} // verus!

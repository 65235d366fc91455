//! Cells ("nodes"): their raw dictionary-relative form, their named
//! user-facing form, spawn probabilities, and the read contract every
//! node space offers.

use vstd::prelude::*;

use crate::dictionary::name_index;
use crate::error::Error;
use crate::vector::MapVector;

verus! {

/// How likely the game is to actually spawn a cell when stamping the
/// schematic into the world. Used to add randomness to schematics.
#[derive(Debug, PartialEq, Eq, Copy, Clone, Hash, Structural)]
pub enum SpawnProbability {
    /// The cell is never spawned. Wire byte 0.
    Never,
    /// The cell is always spawned. Wire byte 127; older encoders wrote 255.
    Always,
    /// A custom likelihood, strictly between the two sentinels: 1 to 126.
    Custom(u8),
}

impl SpawnProbability {
    /// The wire byte this probability encodes to. `Never` encodes to 0,
    /// mirroring the decode direction.
    pub open spec fn spec_to_byte(self) -> u8 {
        match self {
            SpawnProbability::Never => 0,
            SpawnProbability::Always => 127,
            SpawnProbability::Custom(v) => v,
        }
    }

    /// The probability a wire byte decodes to. Total on all bytes: 0 is
    /// `Never`; 127, and for backward compatibility anything above it, is
    /// `Always`; the rest is `Custom`.
    pub open spec fn spec_from_byte(b: u8) -> SpawnProbability {
        if b == 0 {
            SpawnProbability::Never
        } else if b >= 127 {
            SpawnProbability::Always
        } else {
            SpawnProbability::Custom(b)
        }
    }

    /// `Custom` carries only values strictly between the `Never` and
    /// `Always` sentinel bytes.
    pub open spec fn is_valid(self) -> bool {
        match self {
            SpawnProbability::Custom(v) => 1 <= v && v <= 126,
            _ => true,
        }
    }

    pub fn to_byte(self) -> (r: u8)
        ensures
            r == self.spec_to_byte(),
    {
        match self {
            SpawnProbability::Never => 0,
            SpawnProbability::Always => 127,
            SpawnProbability::Custom(v) => v,
        }
    }

    pub fn from_byte(b: u8) -> (r: SpawnProbability)
        ensures
            r == Self::spec_from_byte(b),
    {
        if b == 0 {
            SpawnProbability::Never
        } else if b >= 127 {
            SpawnProbability::Always
        } else {
            SpawnProbability::Custom(b)
        }
    }
}

/// Encoding a valid probability and decoding the byte again yields the
/// probability; decoding any byte up to 127 and re-encoding yields the byte.
pub proof fn lemma_probability_byte_roundtrip(p: SpawnProbability, b: u8)
    ensures
        p.is_valid() ==> SpawnProbability::spec_from_byte(p.spec_to_byte()) == p,
        b <= 127 ==> SpawnProbability::spec_from_byte(b).spec_to_byte() == b,
{
}

/// A memory-efficient representation of one cell ("node") of a schematic,
/// exactly as the grid physically stores it: the content is a dictionary id,
/// the probability a raw wire byte.
#[derive(Debug, PartialEq, Eq, Copy, Clone, Hash, Structural)]
pub struct RawNode {
    /// Index into the owning grid's content dictionary.
    pub content_id: u16,
    /// Raw spawn probability byte, 0 to 127.
    pub spawn_probability: u8,
    /// When false, merging places this cell only over "air" or "ignore"
    /// cells; when true it replaces anything.
    pub force_placement: bool,
    /// Content-specific metadata, e.g. the rotation of doors and stairs.
    pub param2: u8,
}

impl RawNode {
    pub fn new(
        content_id: u16,
        spawn_probability: SpawnProbability,
        force_placement: bool,
        param2: u8,
    ) -> (r: RawNode)
        ensures
            r == (RawNode {
                content_id,
                spawn_probability: spawn_probability.spec_to_byte(),
                force_placement,
                param2,
            }),
    {
        RawNode { content_id, spawn_probability: spawn_probability.to_byte(), force_placement, param2 }
    }

    pub fn with_content_id(content_id: u16) -> (r: RawNode)
        ensures
            r == (RawNode { content_id, spawn_probability: 127u8, force_placement: false, param2: 0u8 }),
    {
        RawNode { content_id, spawn_probability: 127, force_placement: false, param2: 0 }
    }

    pub fn content_id(&self) -> (r: u16)
        ensures
            r == self.content_id,
    {
        self.content_id
    }

    /// Converts this `RawNode` into a [`Node`] by resolving its content id
    /// in the given space's dictionary; fails when the id has no entry.
    pub fn to_node<S: NodeSpace>(&self, schematic: &S) -> (r: Result<Node, Error>)
        ensures
            match r {
                Ok(n) => self.content_id < schematic.names_view().len() && n.content_name@
                    == schematic.names_view()[self.content_id as int] && n.spawn_probability
                    == SpawnProbability::spec_from_byte(self.spawn_probability)
                    && n.force_placement == self.force_placement && n.param2 == self.param2,
                Err(e) => self.content_id >= schematic.names_view().len() && e == Error::InvalidContentIndex(
                    self.content_id,
                ),
            },
    {
        match schematic.content_name_for_id(self.content_id) {
            Some(content_name) => Ok(
                Node {
                    content_name: content_name.to_owned(),
                    spawn_probability: SpawnProbability::from_byte(self.spawn_probability),
                    force_placement: self.force_placement,
                    param2: self.param2,
                },
            ),
            None => Err(Error::InvalidContentIndex(self.content_id)),
        }
    }
}

/// The user-facing form of a cell: it carries its content name instead of a
/// dictionary-relative id.
#[derive(Debug, Clone)]
pub struct Node {
    /// Name that identifies the content (material, item) of this `Node`,
    /// e.g. "air" or "default:cobble".
    pub content_name: String,
    /// How likely it is that the game actually spawns this node.
    pub spawn_probability: SpawnProbability,
    /// When false, merging places this cell only over "air" or "ignore"
    /// cells; when true it replaces anything.
    pub force_placement: bool,
    /// Content-specific metadata, e.g. the rotation of doors and stairs.
    pub param2: u8,
}

impl Node {
    pub fn new(
        content_name: String,
        spawn_probability: SpawnProbability,
        force_placement: bool,
        param2: u8,
    ) -> (r: Node)
        ensures
            r == (Node { content_name, spawn_probability, force_placement, param2 }),
    {
        Node { content_name, spawn_probability, force_placement, param2 }
    }

    pub fn with_content_name(content_name: String) -> (r: Node)
        ensures
            r == (Node {
                content_name,
                spawn_probability: SpawnProbability::Always,
                force_placement: true,
                param2: 0u8,
            }),
    {
        Node { content_name, spawn_probability: SpawnProbability::Always, force_placement: true, param2: 0 }
    }

    /// Converts this `Node` into a [`RawNode`] by looking its content name
    /// up in the given space's dictionary; fails when the name is not
    /// registered there.
    ///
    /// To register the name on the fly instead, use
    /// `Schematic::convert_node_to_raw_node`.
    pub fn to_raw_node<S: NodeSpace>(&self, schematic: &S) -> (r: Result<RawNode, Error>)
        requires
            schematic.space_wf(),
        ensures
            match r {
                Ok(n) => name_index(schematic.names_view(), self.content_name@) == Some(
                    n.content_id as int,
                ) && n.spawn_probability == self.spawn_probability.spec_to_byte()
                    && n.force_placement == self.force_placement && n.param2 == self.param2,
                Err(e) => name_index(schematic.names_view(), self.content_name@) is None && (
                e matches Error::InvalidContentName(s) && s@ == self.content_name@),
            },
    {
        match schematic.content_id_for_name(self.content_name.as_str()) {
            Some(content_id) => {
                proof {
                    schematic.space_wf_facts();
                    crate::dictionary::lemma_name_index_props(
                        schematic.names_view(),
                        self.content_name@,
                    );
                }
                Ok(RawNode::new(content_id, self.spawn_probability, self.force_placement, self.param2))
            },
            None => Err(Error::InvalidContentName(self.content_name.clone())),
        }
    }
}

impl PartialEq for Node {
    fn eq(&self, other: &Node) -> (r: bool) {
        self.content_name == other.content_name && self.spawn_probability == other.spawn_probability
            && self.force_placement == other.force_placement && self.param2 == other.param2
    }
}

impl Eq for Node {

}

impl vstd::std_specs::cmp::PartialEqSpecImpl for Node {
    open spec fn obeys_eq_spec() -> bool {
        true
    }

    open spec fn eq_spec(&self, other: &Node) -> bool {
        self.content_name@ == other.content_name@ && self.spawn_probability
            == other.spawn_probability && self.force_placement == other.force_placement
            && self.param2 == other.param2
    }
}

/// A [`Node`] together with its coordinates inside the space it was read
/// from. Produced by `Schematic::annotated_nodes`.
#[derive(Debug, Clone)]
pub struct AnnotatedNode {
    pub coordinates: MapVector,
    pub node: Node,
}

/// Read access to a 3D space of nodes: an owning grid and every derived
/// view expose exactly this contract.
pub trait NodeSpace {
    /// The content dictionary, in insertion order, as character sequences.
    spec fn names_view(&self) -> Seq<Seq<char>>;

    /// The extent of the space.
    spec fn spec_dimensions(&self) -> MapVector;

    /// The cells in storage order: X varies fastest, then Y, with Z slowest.
    spec fn cells_view(&self) -> Seq<RawNode>;

    /// The space is backed by a well-formed grid: counts, content ids and
    /// probabilities all agree with the dimensions and the dictionary.
    spec fn space_wf(&self) -> bool;

    /// What every well-formed space guarantees about its views.
    proof fn space_wf_facts(&self)
        requires
            self.space_wf(),
        ensures
            self.cells_view().len() == self.spec_dimensions().spec_volume(),
            self.spec_dimensions().in_bounds(),
            self.names_view().len() <= 0x10000,
            forall|k: int|
                0 <= k < self.cells_view().len() ==> (#[trigger] self.cells_view()[k]).content_id
                    < self.names_view().len() && self.cells_view()[k].spawn_probability <= 127,
    ;

    /// Returns the size of the node space in 3D dimensions.
    fn dimensions(&self) -> (r: MapVector)
        ensures
            r == self.spec_dimensions(),
    ;

    /// The number of nodes contained in this node space.
    fn num_nodes(&self) -> (r: usize)
        requires
            self.space_wf(),
        ensures
            r == self.cells_view().len(),
    ;

    /// The content names that nodes of this space can use.
    fn content_names(&self) -> (r: &Vec<String>)
        ensures
            r@.map_values(|s: String| s@) == self.names_view(),
    ;

    /// Returns the content id for the given content `name`: the index of
    /// its first occurrence in the dictionary.
    fn content_id_for_name(&self, name: &str) -> (r: Option<u16>)
        requires
            self.space_wf(),
        ensures
            match name_index(self.names_view(), name@) {
                Some(i) => r == Some(i as u16),
                None => r is None,
            },
    ;

    /// Returns the content name for the given content `id`.
    fn content_name_for_id(&self, id: u16) -> (r: Option<&str>)
        ensures
            match r {
                Some(s) => id < self.names_view().len() && s@ == self.names_view()[id as int],
                None => id >= self.names_view().len(),
            },
    ;

    /// All cells of this node space, in storage order.
    fn raw_nodes(&self) -> (r: Vec<RawNode>)
        requires
            self.space_wf(),
        ensures
            r@ == self.cells_view(),
    ;

    /// Returns the node at the specified `coordinates` as a [`Node`], or
    /// `None` when the coordinates fall outside the space (absence is a
    /// normal query outcome, not a fault) or its content id is invalid.
    fn node_at(&self, coordinates: MapVector) -> (r: Option<Node>)
        requires
            self.space_wf(),
        ensures
            spec_node_at(self.names_view(), self.spec_dimensions(), self.cells_view(), coordinates, r),
    ;
}

/// What [`NodeSpace::node_at`] returns: the cell at the coordinates' linear
/// position, as a named node, exactly when the coordinates are in range, the
/// position is backed by a cell, and the cell's content id resolves.
pub open spec fn spec_node_at(
    names: Seq<Seq<char>>,
    dims: MapVector,
    cells: Seq<RawNode>,
    coordinates: MapVector,
    r: Option<Node>,
) -> bool {
    let k = dims.spec_index_of(coordinates.x as int, coordinates.y as int, coordinates.z as int);
    match r {
        Some(n) => dims.spec_contains(coordinates) && 0 <= k < cells.len() && cells[k].content_id
            < names.len() && n.content_name@ == names[cells[k].content_id as int]
            && n.spawn_probability == SpawnProbability::spec_from_byte(cells[k].spawn_probability)
            && n.force_placement == cells[k].force_placement && n.param2 == cells[k].param2,
        None => !(dims.spec_contains(coordinates) && 0 <= k < cells.len() && cells[k].content_id
            < names.len()),
    }
}

} // verus!

//! The owning grid: construction, validation, the dictionary it owns,
//! iteration, and zero-copy rotated views.

use vstd::prelude::*;

use crate::dictionary::{
    lemma_name_index_props, lemma_register_props, name_index, names_unique, spec_register,
    spec_registered_id,
};
use crate::error::Error;
use crate::node::{
    spec_node_at, AnnotatedNode, Node, NodeSpace, RawNode, SpawnProbability,
};
use crate::vector::{
    coords_of_index, index_of_coords, lemma_coords_of_index_of, lemma_index_bounds,
    lemma_index_of_coords_of, MapVector,
};

verus! {

/// The semantic content of a schematic: what parsing recovers and what all
/// editing contracts are stated over.
pub ghost struct GridModel {
    pub dims: MapVector,
    pub layer_probs: Seq<SpawnProbability>,
    pub names: Seq<Seq<char>>,
    pub cells: Seq<RawNode>,
}

/// A bounded 3D region of a block-based world: a dense grid of cells, each
/// referring to an entry of the ordered content dictionary, plus one spawn
/// probability per Y layer.
///
/// Cells are stored flat, in the wire format's order: X varies fastest,
/// then Y, with Z slowest.
#[derive(Debug, PartialEq, Clone)]
pub struct Schematic {
    /// Format version; always 4.
    pub version: u16,
    /// Extent of the grid.
    pub dimensions: MapVector,
    /// One spawn probability per Y layer.
    pub layer_probabilities: Vec<SpawnProbability>,
    /// Called "name ids" in the file format documentation: the ordered list
    /// of content names that cells point into, e.g. "air", "default:cobble".
    pub content_names: Vec<String>,
    /// The cells, `dimensions.volume()` of them, in storage order.
    pub nodes: Vec<RawNode>,
}

impl Schematic {
    /// The dictionary as character sequences, in insertion order.
    pub open spec fn names_seq(self) -> Seq<Seq<char>> {
        self.content_names@.map_values(|s: String| s@)
    }

    /// The semantic content of this grid.
    pub open spec fn model(self) -> GridModel {
        GridModel {
            dims: self.dimensions,
            layer_probs: self.layer_probabilities@,
            names: self.names_seq(),
            cells: self.nodes@,
        }
    }

    /// The cell at coordinates `(x, y, z)`.
    pub open spec fn cell(self, x: int, y: int, z: int) -> RawNode {
        self.nodes@[self.dimensions.spec_index_of(x, y, z)]
    }

    /// Counts agree with the dimensions: one cell per position, one
    /// probability per Y layer.
    pub open spec fn counts_ok(self) -> bool {
        &&& self.nodes@.len() == self.dimensions.spec_volume()
        &&& self.layer_probabilities@.len() == self.dimensions.y
    }

    /// Every cell's content id is an index into the dictionary.
    pub open spec fn ids_ok(self) -> bool {
        forall|k: int|
            0 <= k < self.nodes@.len() ==> (#[trigger] self.nodes@[k]).content_id
                < self.content_names@.len()
    }

    /// Every stored probability is a valid wire value.
    pub open spec fn probs_ok(self) -> bool {
        &&& forall|k: int|
            0 <= k < self.nodes@.len() ==> (#[trigger] self.nodes@[k]).spawn_probability <= 127
        &&& forall|i: int|
            0 <= i < self.layer_probabilities@.len() ==> (
            #[trigger] self.layer_probabilities@[i]).is_valid()
    }

    /// The grid invariant that constructors establish and editing
    /// operations preserve.
    pub open spec fn wf(self) -> bool {
        &&& self.version == 4
        &&& self.dimensions.in_bounds()
        &&& self.counts_ok()
        &&& self.ids_ok()
        &&& self.probs_ok()
        &&& self.content_names@.len() <= 0x10000
    }

    /// The dictionary holds no duplicate names.
    pub open spec fn dict_unique(self) -> bool {
        names_unique(self.names_seq())
    }

    /// An empty grid: every cell is "air" with probability `Always`, the
    /// dictionary holds exactly "air", and every Y layer spawns `Always`.
    /// Fails when the cell count cannot be represented in memory.
    pub fn new(dimensions: MapVector) -> (r: Result<Schematic, Error>)
        requires
            dimensions.in_bounds(),
        ensures
            match r {
                Ok(g) => {
                    &&& dimensions.spec_volume() <= usize::MAX
                    &&& g.dimensions == dimensions
                    &&& g.version == 4
                    &&& g.nodes@ == Seq::new(
                        dimensions.spec_volume() as nat,
                        |k: int|
                            RawNode {
                                content_id: 0u16,
                                spawn_probability: 127u8,
                                force_placement: false,
                                param2: 0u8,
                            },
                    )
                    &&& g.layer_probabilities@ == Seq::new(
                        dimensions.y as nat,
                        |i: int| SpawnProbability::Always,
                    )
                    &&& g.names_seq() =~= seq!["air"@]
                    &&& g.wf()
                    &&& g.dict_unique()
                },
                Err(e) => e is OutOfBounds && dimensions.spec_volume() > usize::MAX,
            },
    {
        let vol64: u64 = volume_u64(dimensions);
        if vol64 > usize::MAX as u64 {
            return Err(Error::OutOfBounds);
        }
        let count: usize = dimensions.volume();
        let air_node = RawNode {
            content_id: 0,
            spawn_probability: 127,
            force_placement: false,
            param2: 0,
        };
        let g = Schematic {
            version: 4,
            dimensions,
            layer_probabilities: repeat_probability(dimensions.y as usize, SpawnProbability::Always),
            content_names: air_dictionary(),
            nodes: repeat_node(count, air_node),
        };
        proof {
            assert(g.names_seq() =~= seq!["air"@]);
        }
        Ok(g)
    }

    /// Builds a grid around caller-provided cells. The dictionary starts as
    /// just "air": the caller registers the content names its cell ids point
    /// to. Fails when the cell count disagrees with the dimensions.
    pub fn with_raw_nodes(dimensions: MapVector, nodes: Vec<RawNode>) -> (r: Result<
        Schematic,
        Error,
    >)
        requires
            dimensions.in_bounds(),
            dimensions.spec_volume() <= usize::MAX,
        ensures
            match r {
                Ok(g) => {
                    &&& nodes@.len() == dimensions.spec_volume()
                    &&& g.dimensions == dimensions
                    &&& g.version == 4
                    &&& g.nodes@ == nodes@
                    &&& g.layer_probabilities@ == Seq::new(
                        dimensions.y as nat,
                        |i: int| SpawnProbability::Always,
                    )
                    &&& g.names_seq() =~= seq!["air"@]
                    &&& g.dict_unique()
                },
                Err(e) => {
                    &&& nodes@.len() != dimensions.spec_volume()
                    &&& e matches Error::IncorrectNodeCount { found, expected } && found
                        == nodes@.len() && expected == dimensions.spec_volume()
                },
            },
    {
        let expected: usize = dimensions.volume();
        if nodes.len() != expected {
            return Err(Error::IncorrectNodeCount { found: nodes.len(), expected });
        }
        let g = Schematic {
            version: 4,
            dimensions,
            layer_probabilities: repeat_probability(dimensions.y as usize, SpawnProbability::Always),
            content_names: air_dictionary(),
            nodes,
        };
        proof {
            assert(g.names_seq() =~= seq!["air"@]);
        }
        Ok(g)
    }

    /// Registers a content name, returning its id: the existing id when the
    /// name is already present (exact, case-sensitive match), the next free
    /// id after appending otherwise.
    ///
    /// Exceeding the limit of 65536 unique content names is a precondition
    /// violation.
    pub fn register_content(&mut self, name: String) -> (r: u16)
        requires
            old(self).content_names@.len() <= 0x10000,
            name_index(old(self).names_seq(), name@) is Some || old(self).content_names@.len()
                < 0x10000,
        ensures
            final(self).names_seq() == spec_register(old(self).names_seq(), name@),
            r as int == spec_registered_id(old(self).names_seq(), name@),
            name_index(final(self).names_seq(), name@) == Some(r as int),
            final(self).content_names@.len() <= 0x10000,
            old(self).dict_unique() ==> final(self).dict_unique(),
            final(self).version == old(self).version,
            final(self).dimensions == old(self).dimensions,
            final(self).layer_probabilities == old(self).layer_probabilities,
            final(self).nodes == old(self).nodes,
    {
        register_name(&mut self.content_names, name)
    }

    /// Checks the three grid invariants, in this order: the layer
    /// probability count matches the height, the cell count matches the
    /// volume, and every cell's content id points into the dictionary (the
    /// first offending id, in storage order, is reported).
    pub fn validate(&self) -> (r: Result<(), Error>)
        requires
            self.dimensions.spec_volume() <= usize::MAX,
        ensures
            match r {
                Ok(()) => self.counts_ok() && self.ids_ok(),
                Err(e) => match e {
                    Error::IncorrectNumberOfLayerProbabilities => self.layer_probabilities@.len()
                        != self.dimensions.y,
                    Error::IncorrectNodeCount { found, expected } => {
                        &&& self.layer_probabilities@.len() == self.dimensions.y
                        &&& self.nodes@.len() != self.dimensions.spec_volume()
                        &&& found == self.nodes@.len()
                        &&& expected == self.dimensions.spec_volume()
                    },
                    Error::InvalidContentIndex(id) => {
                        &&& self.counts_ok()
                        &&& exists|k: int|
                            {
                                &&& 0 <= k < self.nodes@.len()
                                &&& (#[trigger] self.nodes@[k]).content_id
                                    >= self.content_names@.len()
                                &&& id == self.nodes@[k].content_id
                                &&& forall|j: int|
                                    0 <= j < k ==> (#[trigger] self.nodes@[j]).content_id
                                        < self.content_names@.len()
                            }
                    },
                    _ => false,
                },
            },
    {
        if self.layer_probabilities.len() != self.dimensions.y as usize {
            return Err(Error::IncorrectNumberOfLayerProbabilities);
        }

        let expected: usize = self.dimensions.volume();
        if self.nodes.len() != expected {
            return Err(Error::IncorrectNodeCount { found: self.nodes.len(), expected });
        }

        let mut k: usize = 0;
        while k < self.nodes.len()
            invariant
                k <= self.nodes@.len(),
                self.layer_probabilities@.len() == self.dimensions.y,
                self.nodes@.len() == self.dimensions.spec_volume(),
                forall|j: int|
                    0 <= j < k ==> (#[trigger] self.nodes@[j]).content_id
                        < self.content_names@.len(),
            decreases self.nodes@.len() - k,
        {
            if self.nodes[k].content_id as usize >= self.content_names.len() {
                proof {
                    assert(exists|kk: int|
                        {
                            &&& 0 <= kk < self.nodes@.len()
                            &&& (#[trigger] self.nodes@[kk]).content_id
                                >= self.content_names@.len()
                            &&& self.nodes@[k as int].content_id == self.nodes@[kk].content_id
                            &&& forall|j: int|
                                0 <= j < kk ==> (#[trigger] self.nodes@[j]).content_id
                                    < self.content_names@.len()
                        }) by {
                        assert(self.nodes@[k as int].content_id >= self.content_names@.len());
                    }
                }
                return Err(Error::InvalidContentIndex(self.nodes[k].content_id));
            }
            k += 1;
        }

        Ok(())
    }
}

impl Schematic {
    /// Iterates over all cells as [`AnnotatedNode`]s, in storage order: X
    /// varies fastest, then Y, with Z slowest.
    pub fn annotated_nodes(&self) -> (r: AnnotatedNodeIterator)
        ensures
            r.schematic == self,
            r.index == 0,
    {
        AnnotatedNodeIterator::from_schematic(self)
    }

    /// Rotates the `Schematic` 90 degrees to the left around its Y axis.
    ///
    /// Copies no cell data: the returned view borrows the source grid and
    /// maps coordinates lazily. A view cell at `(x, y, z)` reads the source
    /// cell at `(z, y, dimensions.z - 1 - x)`. `param2` values, which may
    /// encode a block's own orientation, are not adjusted.
    pub fn rotate_left(&self) -> (r: SchematicRef)
        ensures
            r.schematic == self,
            r.rotation == Rotation::Left,
    {
        SchematicRef { schematic: self, rotation: Rotation::Left }
    }

    /// Rotates the `Schematic` 90 degrees to the right around its Y axis.
    ///
    /// Copies no cell data: a view cell at `(x, y, z)` reads the source
    /// cell at `(dimensions.x - 1 - z, y, x)`. `param2` values are not
    /// adjusted.
    pub fn rotate_right(&self) -> (r: SchematicRef)
        ensures
            r.schematic == self,
            r.rotation == Rotation::Right,
    {
        SchematicRef { schematic: self, rotation: Rotation::Right }
    }

    /// Rotates the `Schematic` 180 degrees around its Y axis.
    ///
    /// Copies no cell data: a view cell at `(x, y, z)` reads the source
    /// cell at `(dimensions.x - 1 - x, y, dimensions.z - 1 - z)`. `param2`
    /// values are not adjusted.
    pub fn rotate_180(&self) -> (r: SchematicRef)
        ensures
            r.schematic == self,
            r.rotation == Rotation::Half,
    {
        SchematicRef { schematic: self, rotation: Rotation::Half }
    }
}

impl NodeSpace for Schematic {
    open spec fn names_view(&self) -> Seq<Seq<char>> {
        self.names_seq()
    }

    open spec fn spec_dimensions(&self) -> MapVector {
        self.dimensions
    }

    open spec fn cells_view(&self) -> Seq<RawNode> {
        self.nodes@
    }

    open spec fn space_wf(&self) -> bool {
        self.wf()
    }

    proof fn space_wf_facts(&self) {
    }

    fn dimensions(&self) -> (r: MapVector) {
        self.dimensions
    }

    fn num_nodes(&self) -> (r: usize) {
        self.nodes.len()
    }

    fn content_names(&self) -> (r: &Vec<String>) {
        &self.content_names
    }

    fn content_id_for_name(&self, name: &str) -> (r: Option<u16>) {
        let owned: String = name.to_owned();
        match find_name(&self.content_names, &owned) {
            Some(i) => {
                proof {
                    lemma_name_index_props(self.names_seq(), name@);
                }
                Some(i as u16)
            },
            None => None,
        }
    }

    fn content_name_for_id(&self, id: u16) -> (r: Option<&str>) {
        if (id as usize) < self.content_names.len() {
            Some(self.content_names[id as usize].as_str())
        } else {
            None
        }
    }

    fn raw_nodes(&self) -> (r: Vec<RawNode>) {
        let mut out: Vec<RawNode> = Vec::new();
        let mut i: usize = 0;
        while i < self.nodes.len()
            invariant
                i <= self.nodes@.len(),
                out@ == self.nodes@.subrange(0, i as int),
            decreases self.nodes@.len() - i,
        {
            out.push(self.nodes[i]);
            proof {
                assert(out@ =~= self.nodes@.subrange(0, i + 1));
            }
            i += 1;
        }
        proof {
            assert(out@ =~= self.nodes@);
        }
        out
    }

    fn node_at(&self, coordinates: MapVector) -> (r: Option<Node>) {
        if !(coordinates.x < self.dimensions.x && coordinates.y < self.dimensions.y
            && coordinates.z < self.dimensions.z) {
            return None;
        }
        let stored = self.nodes.len();
        proof {
            assert(self.dimensions.spec_volume() <= stored);
        }
        let k = index_of_coords(self.dimensions, coordinates);
        let cell = self.nodes[k];
        proof {
            assert(self.nodes@[k as int].content_id < self.content_names@.len());
        }
        let content_name: String = self.content_names[cell.content_id as usize].clone();
        Some(
            Node {
                content_name,
                spawn_probability: SpawnProbability::from_byte(cell.spawn_probability),
                force_placement: cell.force_placement,
                param2: cell.param2,
            },
        )
    }
}

/// Which rotation about the vertical (Y) axis a view applies to its source.
#[derive(Debug, Copy, Clone, PartialEq, Eq, Structural)]
pub enum Rotation {
    /// No rotation: the view reads the source as it is.
    Identity,
    /// 90 degrees to the left.
    Left,
    /// 90 degrees to the right.
    Right,
    /// 180 degrees.
    Half,
}

/// A non-owning, possibly rotated view over a `Schematic`'s cells: it
/// borrows the source grid and maps coordinates lazily on each access,
/// copying no cell data. It exposes the same read contract as the grid.
#[derive(Debug, Clone)]
pub struct SchematicRef<'a> {
    pub schematic: &'a Schematic,
    pub rotation: Rotation,
}

impl<'a> SchematicRef<'a> {
    /// The extent of the view: 90-degree rotations swap the X and Z sizes.
    pub open spec fn spec_view_dims(self) -> MapVector {
        match self.rotation {
            Rotation::Identity => self.schematic.dimensions,
            Rotation::Half => self.schematic.dimensions,
            Rotation::Left => MapVector {
                x: self.schematic.dimensions.z,
                y: self.schematic.dimensions.y,
                z: self.schematic.dimensions.x,
            },
            Rotation::Right => MapVector {
                x: self.schematic.dimensions.z,
                y: self.schematic.dimensions.y,
                z: self.schematic.dimensions.x,
            },
        }
    }

    /// Source X coordinate backing view coordinates `(x, y, z)`.
    pub open spec fn source_x(self, x: int, z: int) -> int {
        match self.rotation {
            Rotation::Identity => x,
            Rotation::Left => z,
            Rotation::Right => self.schematic.dimensions.x - 1 - z,
            Rotation::Half => self.schematic.dimensions.x - 1 - x,
        }
    }

    /// Source Z coordinate backing view coordinates `(x, y, z)`; the Y
    /// coordinate is never remapped.
    pub open spec fn source_z(self, x: int, z: int) -> int {
        match self.rotation {
            Rotation::Identity => z,
            Rotation::Left => self.schematic.dimensions.z - 1 - x,
            Rotation::Right => x,
            Rotation::Half => self.schematic.dimensions.z - 1 - z,
        }
    }

    /// The source cell a view cell at `(x, y, z)` reads.
    pub open spec fn view_cell(self, x: int, y: int, z: int) -> RawNode {
        self.schematic.nodes@[self.schematic.dimensions.spec_index_of(
            self.source_x(x, z),
            y,
            self.source_z(x, z),
        )]
    }

    /// An unrotated view of the whole grid.
    pub fn from_schematic(schematic: &'a Schematic) -> (r: Self)
        ensures
            r.schematic == schematic,
            r.rotation == Rotation::Identity,
    {
        SchematicRef { schematic, rotation: Rotation::Identity }
    }
}

impl<'a> NodeSpace for SchematicRef<'a> {
    open spec fn names_view(&self) -> Seq<Seq<char>> {
        self.schematic.names_seq()
    }

    open spec fn spec_dimensions(&self) -> MapVector {
        self.spec_view_dims()
    }

    open spec fn cells_view(&self) -> Seq<RawNode> {
        Seq::new(
            self.spec_view_dims().spec_volume() as nat,
            |k: int|
                self.view_cell(
                    self.spec_view_dims().x_of(k),
                    self.spec_view_dims().y_of(k),
                    self.spec_view_dims().z_of(k),
                ),
        )
    }

    open spec fn space_wf(&self) -> bool {
        self.schematic.wf()
    }

    proof fn space_wf_facts(&self) {
        lemma_view_volume(*self);
        let d = self.spec_view_dims();
        let s = self.schematic;
        assert forall|k: int| 0 <= k < self.cells_view().len() implies (
        #[trigger] self.cells_view()[k]).content_id < self.names_view().len()
            && self.cells_view()[k].spawn_probability <= 127 by {
            lemma_index_of_coords_of(d, k);
            let x = d.x_of(k);
            let y = d.y_of(k);
            let z = d.z_of(k);
            lemma_index_bounds(s.dimensions, self.source_x(x, z), y, self.source_z(x, z));
        }
    }

    fn dimensions(&self) -> (r: MapVector) {
        match self.rotation {
            Rotation::Identity => self.schematic.dimensions,
            Rotation::Half => self.schematic.dimensions,
            Rotation::Left => MapVector {
                x: self.schematic.dimensions.z,
                y: self.schematic.dimensions.y,
                z: self.schematic.dimensions.x,
            },
            Rotation::Right => MapVector {
                x: self.schematic.dimensions.z,
                y: self.schematic.dimensions.y,
                z: self.schematic.dimensions.x,
            },
        }
    }

    fn num_nodes(&self) -> (r: usize) {
        proof {
            lemma_view_volume(*self);
        }
        self.schematic.nodes.len()
    }

    fn content_names(&self) -> (r: &Vec<String>) {
        &self.schematic.content_names
    }

    fn content_id_for_name(&self, name: &str) -> (r: Option<u16>) {
        self.schematic.content_id_for_name(name)
    }

    fn content_name_for_id(&self, id: u16) -> (r: Option<&str>) {
        self.schematic.content_name_for_id(id)
    }

    fn raw_nodes(&self) -> (r: Vec<RawNode>) {
        proof {
            lemma_view_volume(*self);
        }
        let d = self.dimensions();
        let n = self.schematic.nodes.len();
        let mut out: Vec<RawNode> = Vec::new();
        let mut k: usize = 0;
        while k < n
            invariant
                self.schematic.wf(),
                d == self.spec_view_dims(),
                n == self.schematic.nodes@.len(),
                n as int == d.spec_volume(),
                k <= n,
                out@.len() == k,
                forall|j: int| 0 <= j < k ==> out@[j] == self.cells_view()[j],
            decreases n - k,
        {
            let c = coords_of_index(d, k);
            let source = self.source_coords(c);
            let src_idx = index_of_coords(self.schematic.dimensions, source);
            out.push(self.schematic.nodes[src_idx]);
            k += 1;
        }
        proof {
            assert(out@ =~= self.cells_view());
        }
        out
    }

    fn node_at(&self, coordinates: MapVector) -> (r: Option<Node>) {
        proof {
            lemma_view_volume(*self);
        }
        let d = self.dimensions();
        if !(coordinates.x < d.x && coordinates.y < d.y && coordinates.z < d.z) {
            return None;
        }
        proof {
            lemma_coords_of_index_of(
                d,
                coordinates.x as int,
                coordinates.y as int,
                coordinates.z as int,
            );
            lemma_index_bounds(
                d,
                coordinates.x as int,
                coordinates.y as int,
                coordinates.z as int,
            );
        }
        let stored = self.schematic.nodes.len();
        proof {
            assert(self.schematic.dimensions.spec_volume() <= stored);
        }
        let source = self.source_coords(coordinates);
        let src_idx = index_of_coords(self.schematic.dimensions, source);
        let cell = self.schematic.nodes[src_idx];
        proof {
            assert(self.schematic.nodes@[src_idx as int].content_id
                < self.schematic.content_names@.len());
        }
        let content_name: String = self.schematic.content_names[cell.content_id as usize].clone();
        Some(
            Node {
                content_name,
                spawn_probability: SpawnProbability::from_byte(cell.spawn_probability),
                force_placement: cell.force_placement,
                param2: cell.param2,
            },
        )
    }
}

impl<'a> SchematicRef<'a> {
    /// Maps in-range view coordinates to the source coordinates that back
    /// them.
    fn source_coords(&self, c: MapVector) -> (r: MapVector)
        requires
            self.spec_view_dims().spec_contains(c),
            self.schematic.dimensions.in_bounds(),
        ensures
            r.x as int == self.source_x(c.x as int, c.z as int),
            r.y == c.y,
            r.z as int == self.source_z(c.x as int, c.z as int),
            self.schematic.dimensions.spec_contains(r),
    {
        let d = self.schematic.dimensions;
        match self.rotation {
            Rotation::Identity => MapVector { x: c.x, y: c.y, z: c.z },
            Rotation::Left => MapVector { x: c.z, y: c.y, z: d.z - 1 - c.x },
            Rotation::Right => MapVector { x: d.x - 1 - c.z, y: c.y, z: c.x },
            Rotation::Half => MapVector { x: d.x - 1 - c.x, y: c.y, z: d.z - 1 - c.z },
        }
    }
}

/// A rotated view has exactly as many cells as its source grid.
proof fn lemma_view_volume(r: SchematicRef)
    ensures
        r.spec_view_dims().spec_volume() == r.schematic.dimensions.spec_volume(),
{
    let d = r.schematic.dimensions;
    assert((d.z as int) * (d.y as int) * (d.x as int) == (d.x as int) * (d.y as int) * (
    d.z as int)) by (nonlinear_arith);
}

/// Iterator over a `Schematic`'s cells with their coordinates, in storage
/// order: X varies fastest, then Y, with Z slowest.
pub struct AnnotatedNodeIterator<'a> {
    pub schematic: &'a Schematic,
    pub index: usize,
}

impl<'a> AnnotatedNodeIterator<'a> {
    pub fn from_schematic(schematic: &'a Schematic) -> (r: Self)
        ensures
            r.schematic == schematic,
            r.index == 0,
    {
        AnnotatedNodeIterator { schematic, index: 0 }
    }

    /// The next cell with its coordinates, or `None` once all cells have
    /// been handed out.
    pub fn next(&mut self) -> (r: Option<AnnotatedNode>)
        requires
            old(self).schematic.wf(),
        ensures
            final(self).schematic == old(self).schematic,
            ({
                let g = old(self).schematic;
                let k = old(self).index as int;
                if k < g.nodes@.len() {
                    &&& final(self).index == k + 1
                    &&& r matches Some(an) && {
                        let c = g.nodes@[k];
                        &&& an.coordinates.x as int == g.dimensions.x_of(k)
                        &&& an.coordinates.y as int == g.dimensions.y_of(k)
                        &&& an.coordinates.z as int == g.dimensions.z_of(k)
                        &&& an.node.content_name@ == g.names_seq()[c.content_id as int]
                        &&& an.node.spawn_probability == SpawnProbability::spec_from_byte(
                            c.spawn_probability,
                        )
                        &&& an.node.force_placement == c.force_placement
                        &&& an.node.param2 == c.param2
                    }
                } else {
                    r is None && final(self).index == k
                }
            }),
    {
        if self.index >= self.schematic.nodes.len() {
            return None;
        }
        let k = self.index;
        let coordinates = coords_of_index(self.schematic.dimensions, k);
        let cell = self.schematic.nodes[k];
        proof {
            assert(self.schematic.nodes@[k as int].content_id
                < self.schematic.content_names@.len());
        }
        let content_name: String =
            self.schematic.content_names[cell.content_id as usize].clone();
        self.index = k + 1;
        Some(
            AnnotatedNode {
                coordinates,
                node: Node {
                    content_name,
                    spawn_probability: SpawnProbability::from_byte(cell.spawn_probability),
                    force_placement: cell.force_placement,
                    param2: cell.param2,
                },
            },
        )
    }
}

/// Registers `name` in an ordered dictionary, returning its id: the
/// existing id when present, the next free id after appending otherwise.
pub(crate) fn register_name(names: &mut Vec<String>, name: String) -> (r: u16)
    requires
        old(names)@.len() <= 0x10000,
        name_index(old(names)@.map_values(|s: String| s@), name@) is Some || old(
            names,
        )@.len() < 0x10000,
    ensures
        final(names)@.map_values(|s: String| s@) == spec_register(
            old(names)@.map_values(|s: String| s@),
            name@,
        ),
        r as int == spec_registered_id(old(names)@.map_values(|s: String| s@), name@),
        name_index(final(names)@.map_values(|s: String| s@), name@) == Some(r as int),
        final(names)@.len() <= 0x10000,
        names_unique(old(names)@.map_values(|s: String| s@)) ==> names_unique(
            final(names)@.map_values(|s: String| s@),
        ),
{
    proof {
        lemma_register_props(names@.map_values(|s: String| s@), name@);
        lemma_name_index_props(names@.map_values(|s: String| s@), name@);
    }
    let ghost name_view = name@;
    match find_name(names, &name) {
        Some(i) => i as u16,
        None => {
            let id = names.len() as u16;
            names.push(name);
            proof {
                assert(names@.map_values(|s: String| s@) =~= old(names)@.map_values(
                    |s: String| s@,
                ).push(name_view));
            }
            id
        },
    }
}

/// A copy of a dictionary; the copied names read the same.
pub(crate) fn clone_names(names: &Vec<String>) -> (r: Vec<String>)
    ensures
        r@.len() == names@.len(),
        r@.map_values(|s: String| s@) == names@.map_values(|s: String| s@),
{
    let mut out: Vec<String> = Vec::new();
    let mut i: usize = 0;
    while i < names.len()
        invariant
            i <= names@.len(),
            out@.len() == i,
            forall|j: int| 0 <= j < i ==> (#[trigger] out@[j])@ == names@[j]@,
        decreases names@.len() - i,
    {
        out.push(names[i].clone());
        i += 1;
    }
    proof {
        assert(out@.map_values(|s: String| s@) =~= names@.map_values(|s: String| s@));
    }
    out
}

/// A copy of a layer probability list.
pub(crate) fn clone_probabilities(probs: &Vec<SpawnProbability>) -> (r: Vec<SpawnProbability>)
    ensures
        r@ == probs@,
{
    let mut out: Vec<SpawnProbability> = Vec::new();
    let mut i: usize = 0;
    while i < probs.len()
        invariant
            i <= probs@.len(),
            out@ == probs@.subrange(0, i as int),
        decreases probs@.len() - i,
    {
        out.push(probs[i]);
        proof {
            assert(out@ =~= probs@.subrange(0, i + 1));
        }
        i += 1;
    }
    proof {
        assert(out@ =~= probs@);
    }
    out
}

/// The dictionary of a freshly built grid: exactly one entry, "air".
fn air_dictionary() -> (r: Vec<String>)
    ensures
        r@.len() == 1,
        r@[0]@ == "air"@,
{
    let mut names: Vec<String> = Vec::new();
    names.push("air".to_owned());
    names
}

/// `n` copies of the given cell.
fn repeat_node(n: usize, node: RawNode) -> (r: Vec<RawNode>)
    ensures
        r@ == Seq::new(n as nat, |i: int| node),
{
    let mut out: Vec<RawNode> = Vec::new();
    let mut i: usize = 0;
    while i < n
        invariant
            i <= n,
            out@ == Seq::new(i as nat, |j: int| node),
        decreases n - i,
    {
        out.push(node);
        proof {
            assert(out@ =~= Seq::new((i + 1) as nat, |j: int| node));
        }
        i += 1;
    }
    out
}

/// `n` copies of the given probability.
pub(crate) fn repeat_probability(n: usize, p: SpawnProbability) -> (r: Vec<SpawnProbability>)
    ensures
        r@ == Seq::new(n as nat, |i: int| p),
{
    let mut out: Vec<SpawnProbability> = Vec::new();
    let mut i: usize = 0;
    while i < n
        invariant
            i <= n,
            out@ == Seq::new(i as nat, |j: int| p),
        decreases n - i,
    {
        out.push(p);
        proof {
            assert(out@ =~= Seq::new((i + 1) as nat, |j: int| p));
        }
        i += 1;
    }
    out
}

/// The volume of a box, computed exactly in 64 bits.
pub(crate) fn volume_u64(dimensions: MapVector) -> (r: u64)
    ensures
        r == dimensions.spec_volume(),
{
    proof {
        assert(0 <= (dimensions.x as int) * (dimensions.y as int) <= 0xFFFF * 0xFFFF && 0 <= (
        dimensions.x as int) * (dimensions.y as int) * (dimensions.z as int) <= 0xFFFF * 0xFFFF
            * 0xFFFF) by (nonlinear_arith)
            requires
                0 <= dimensions.x as int <= 0xFFFF,
                0 <= dimensions.y as int <= 0xFFFF,
                0 <= dimensions.z as int <= 0xFFFF,
        ;
    }
    let xy: u64 = (dimensions.x as u64) * (dimensions.y as u64);
    xy * (dimensions.z as u64)
}

/// Index of the first dictionary entry equal to `name`, if any.
pub(crate) fn find_name(names: &Vec<String>, name: &String) -> (r: Option<usize>)
    ensures
        match name_index(names@.map_values(|s: String| s@), name@) {
            Some(i) => r == Some(i as usize),
            None => r is None,
        },
{
    let ghost views = names@.map_values(|s: String| s@);
    proof {
        lemma_name_index_props(views, name@);
    }
    let mut i: usize = 0;
    while i < names.len()
        invariant
            i <= names@.len(),
            views == names@.map_values(|s: String| s@),
            forall|j: int| 0 <= j < i ==> views[j] != name@,
        decreases names@.len() - i,
    {
        if names[i].eq(name) {
            proof {
                lemma_name_index_props(views, name@);
                assert(views[i as int] == name@);
                match name_index(views, name@) {
                    Some(idx) => {
                        if idx < i as int {
                            assert(views[idx] != name@);
                            assert(false);
                        } else if idx > i as int {
                            assert(views[i as int] != name@);
                            assert(false);
                        }
                    },
                    None => {
                        assert(views[i as int] != name@);
                        assert(false);
                    },
                }
            }
            return Some(i);
        }
        i += 1;
    }
    None
}

} // verus!

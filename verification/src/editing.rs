//! The editing engine: fill, insert-layer, merge and chunked splitting,
//! with the laws they obey.

use vstd::arithmetic::div_mod::lemma_fundamental_div_mod;
use vstd::prelude::*;

use crate::dictionary::{
    lemma_name_index_props, lemma_register_props, lemma_unify_contains, lemma_unify_grows,
    lemma_unify_no_novel, lemma_unify_novel_count, name_index, names_unique, spec_novel_count,
    spec_register, spec_registered_id, spec_unify,
};
use crate::error::Error;
use crate::node::{Node, NodeSpace, RawNode, SpawnProbability};
use crate::schematic::{
    clone_names, clone_probabilities, find_name, register_name, repeat_probability, Schematic,
};
use crate::vector::{
    coords_of_index, index_of_coords, lemma_coords_of_index_of, lemma_index_bounds,
    lemma_index_of_coords_of, MapVector, MAX_MAP_DIMENSION,
};

verus! {

/// The axis-aligned box `[origin, origin + extent)` lies entirely within a
/// grid of the given dimensions.
pub open spec fn box_fits(dims: MapVector, origin: MapVector, extent: MapVector) -> bool {
    &&& origin.x + extent.x <= dims.x
    &&& origin.y + extent.y <= dims.y
    &&& origin.z + extent.z <= dims.z
}

/// The cell at linear position `k` lies inside the box
/// `[origin, origin + extent)`.
pub open spec fn in_box(dims: MapVector, origin: MapVector, extent: MapVector, k: int) -> bool {
    &&& origin.x <= dims.x_of(k) < origin.x + extent.x
    &&& origin.y <= dims.y_of(k) < origin.y + extent.y
    &&& origin.z <= dims.z_of(k) < origin.z + extent.z
}

/// The raw cell a named node converts to against a dictionary, right after
/// its name has been registered there.
pub open spec fn spec_converted(names: Seq<Seq<char>>, node: Node) -> RawNode {
    RawNode {
        content_id: spec_registered_id(names, node.content_name@) as u16,
        spawn_probability: node.spawn_probability.spec_to_byte(),
        force_placement: node.force_placement,
        param2: node.param2,
    }
}

/// The cells of a grid after filling the box `[origin, origin + extent)`
/// with `cell`: cells inside the box are replaced, all others untouched.
pub open spec fn spec_fill_cells(
    cells: Seq<RawNode>,
    dims: MapVector,
    origin: MapVector,
    extent: MapVector,
    cell: RawNode,
) -> Seq<RawNode> {
    Seq::new(
        cells.len(),
        |k: int|
            if in_box(dims, origin, extent, k) {
                cell
            } else {
                cells[k]
            },
    )
}

/// The cells of the grid produced by inserting a full layer of `cell` at
/// height `y`: the new layer is uniform, layers below keep their height,
/// layers at or above shift up by one.
pub open spec fn spec_insert_layer_cell(
    old_cells: Seq<RawNode>,
    old_dims: MapVector,
    new_dims: MapVector,
    y: int,
    cell: RawNode,
    k: int,
) -> RawNode {
    let xx = new_dims.x_of(k);
    let yy = new_dims.y_of(k);
    let zz = new_dims.z_of(k);
    if yy == y {
        cell
    } else if yy < y {
        old_cells[old_dims.spec_index_of(xx, yy, zz)]
    } else {
        old_cells[old_dims.spec_index_of(xx, yy - 1, zz)]
    }
}

/// A cell id that resolves, in the given dictionary, to one of the two
/// transparent sentinel names "air" and "ignore".
pub open spec fn spec_transparent(names: Seq<Seq<char>>, id: u16) -> bool {
    ||| name_index(names, "air"@) == Some(id as int)
    ||| name_index(names, "ignore"@) == Some(id as int)
}

/// The id a source cell's content keeps in the unified dictionary: its
/// name's index there, or the id verbatim when it has no name.
pub open spec fn spec_remapped_id(
    unified: Seq<Seq<char>>,
    src_names: Seq<Seq<char>>,
    id: u16,
) -> u16 {
    if id < src_names.len() {
        match name_index(unified, src_names[id as int]) {
            Some(i) => i as u16,
            None => id,
        }
    } else {
        id
    }
}

/// How one source cell composites over one target cell: a source cell with
/// probability `Never` and no forced placement replaces only transparent
/// targets; every other source cell replaces the target unconditionally. A
/// placed cell copies the source's probability, force flag and param2
/// verbatim, with its content id remapped by name into the unified
/// dictionary.
pub open spec fn spec_merge_cell(
    target: RawNode,
    source: RawNode,
    unified: Seq<Seq<char>>,
    src_names: Seq<Seq<char>>,
) -> RawNode {
    if source.spawn_probability == 0 && !source.force_placement && !spec_transparent(
        unified,
        target.content_id,
    ) {
        target
    } else {
        RawNode {
            content_id: spec_remapped_id(unified, src_names, source.content_id),
            spawn_probability: source.spawn_probability,
            force_placement: source.force_placement,
            param2: source.param2,
        }
    }
}

/// The linear source position that backs target position `k` when merging
/// a source of extent `src_dims` at `at`.
pub open spec fn spec_source_pos(
    dims: MapVector,
    src_dims: MapVector,
    at: MapVector,
    k: int,
) -> int {
    src_dims.spec_index_of(dims.x_of(k) - at.x, dims.y_of(k) - at.y, dims.z_of(k) - at.z)
}

/// The cells of the target grid after merging `src_cells` at `at`: inside
/// the merge box each target cell composites with its source cell, outside
/// it nothing changes.
pub open spec fn spec_merge_cells(
    old_cells: Seq<RawNode>,
    dims: MapVector,
    src_cells: Seq<RawNode>,
    src_dims: MapVector,
    at: MapVector,
    unified: Seq<Seq<char>>,
    src_names: Seq<Seq<char>>,
) -> Seq<RawNode> {
    Seq::new(
        old_cells.len(),
        |k: int|
            if in_box(dims, at, src_dims, k) {
                spec_merge_cell(
                    old_cells[k],
                    src_cells[spec_source_pos(dims, src_dims, at, k)],
                    unified,
                    src_names,
                )
            } else {
                old_cells[k]
            },
    )
}

/// The chunk grid: how many whole chunks of extent `c` fit along each axis
/// of a grid of extent `dims`. Remainder cells form no chunk.
pub open spec fn spec_chunk_grid(dims: MapVector, c: MapVector) -> MapVector
    recommends
        c.x > 0,
        c.y > 0,
        c.z > 0,
{
    MapVector {
        x: (dims.x as int / c.x as int) as u16,
        y: (dims.y as int / c.y as int) as u16,
        z: (dims.z as int / c.z as int) as u16,
    }
}

/// The cells of the chunk of extent `c` whose lowest corner sits at
/// `(ox, oy, oz)` in the parent grid, in storage order.
pub open spec fn spec_chunk_cells(
    cells: Seq<RawNode>,
    dims: MapVector,
    c: MapVector,
    ox: int,
    oy: int,
    oz: int,
) -> Seq<RawNode> {
    Seq::new(
        c.spec_volume() as nat,
        |k: int|
            cells[dims.spec_index_of(ox + c.x_of(k), oy + c.y_of(k), oz + c.z_of(k))],
    )
}

/// What the chunk at chunk-grid position `m` (chunks enumerated X first,
/// then Y, then Z) of splitting `parent` into chunks of extent `c` looks
/// like: the parent's whole dictionary, fresh `Always` layer probabilities,
/// and a copy of the parent's cells in the chunk's box.
pub open spec fn chunk_matches(parent: Schematic, c: MapVector, m: int, g: Schematic) -> bool {
    let cg = spec_chunk_grid(parent.dimensions, c);
    &&& g.version == 4
    &&& g.dimensions == c
    &&& g.names_seq() == parent.names_seq()
    &&& g.layer_probabilities@ == Seq::new(c.y as nat, |i: int| SpawnProbability::Always)
    &&& g.nodes@ == spec_chunk_cells(
        parent.nodes@,
        parent.dimensions,
        c,
        cg.x_of(m) * c.x,
        cg.y_of(m) * c.y,
        cg.z_of(m) * c.z,
    )
    &&& g.wf()
}

/// Law: filling the same box with the same cell twice yields the same grid
/// as filling once. The second registration finds the name already present
/// and changes nothing, and the second pass overwrites the box with the
/// value it already holds.
pub proof fn lemma_fill_idempotent(
    cells: Seq<RawNode>,
    dims: MapVector,
    origin: MapVector,
    extent: MapVector,
    names: Seq<Seq<char>>,
    node: Node,
)
    ensures
        spec_register(spec_register(names, node.content_name@), node.content_name@)
            == spec_register(names, node.content_name@),
        spec_fill_cells(
            spec_fill_cells(cells, dims, origin, extent, spec_converted(names, node)),
            dims,
            origin,
            extent,
            spec_converted(spec_register(names, node.content_name@), node),
        ) == spec_fill_cells(cells, dims, origin, extent, spec_converted(names, node)),
{
    let n = node.content_name@;
    lemma_register_props(names, n);
    lemma_register_props(spec_register(names, n), n);
    assert(spec_converted(spec_register(names, n), node) == spec_converted(names, node));
    let once = spec_fill_cells(cells, dims, origin, extent, spec_converted(names, node));
    let twice = spec_fill_cells(once, dims, origin, extent, spec_converted(names, node));
    assert(twice =~= once);
}

/// Law: merging a source with N names into a target whose dictionary has K
/// entries grows the dictionary to exactly K plus the number of novel
/// names, appending only; and when the source's names are unique, every
/// source content id remaps to an id that resolves, in the unified
/// dictionary, to the very name it had in the source.
pub proof fn lemma_merge_dictionary_growth(a: Seq<Seq<char>>, b: Seq<Seq<char>>)
    requires
        spec_unify(a, b).len() <= 0x10000,
    ensures
        spec_unify(a, b).len() == a.len() + spec_novel_count(a, b),
        forall|j: int| 0 <= j < a.len() ==> spec_unify(a, b)[j] == a[j],
        forall|id: u16|
            id < b.len() ==> spec_unify(a, b)[spec_remapped_id(spec_unify(a, b), b, id) as int]
                == b[id as int],
{
    let unified = spec_unify(a, b);
    lemma_unify_novel_count(a, b);
    lemma_unify_grows(a, b);
    lemma_unify_contains(a, b);
    assert forall|id: u16| id < b.len() implies unified[spec_remapped_id(unified, b, id) as int]
        == b[id as int] by {
        lemma_name_index_props(unified, b[id as int]);
    }
}

/// Law (merge identity, restricted): merging a source that consists
/// entirely of unforced, never-spawning cells whose names the target
/// already knows leaves the target completely unchanged — provided no
/// target cell resolves to the transparent sentinels "air" or "ignore".
/// Transparent target cells are excluded deliberately: the placement rule
/// overwrites them even with a never-spawning source cell.
pub proof fn lemma_merge_identity(
    old_cells: Seq<RawNode>,
    dims: MapVector,
    src_cells: Seq<RawNode>,
    src_dims: MapVector,
    at: MapVector,
    a: Seq<Seq<char>>,
    b: Seq<Seq<char>>,
)
    requires
        old_cells.len() == dims.spec_volume(),
        src_cells.len() == src_dims.spec_volume(),
        box_fits(dims, at, src_dims),
        forall|j: int|
            0 <= j < src_cells.len() ==> (#[trigger] src_cells[j]).spawn_probability == 0
                && !src_cells[j].force_placement,
        forall|i: int| 0 <= i < b.len() ==> name_index(a, #[trigger] b[i]) is Some,
        forall|k: int|
            0 <= k < old_cells.len() ==> !spec_transparent(
                a,
                (#[trigger] old_cells[k]).content_id,
            ),
    ensures
        spec_unify(a, b) == a,
        spec_merge_cells(old_cells, dims, src_cells, src_dims, at, spec_unify(a, b), b)
            == old_cells,
{
    lemma_unify_no_novel(a, b);
    let merged = spec_merge_cells(old_cells, dims, src_cells, src_dims, at, a, b);
    assert forall|k: int| 0 <= k < old_cells.len() implies merged[k] == old_cells[k] by {
        if in_box(dims, at, src_dims, k) {
            lemma_index_of_coords_of(dims, k);
            lemma_index_bounds(
                src_dims,
                dims.x_of(k) - at.x,
                dims.y_of(k) - at.y,
                dims.z_of(k) - at.z,
            );
        }
    }
    assert(merged =~= old_cells);
}

impl Schematic {
    /// Converts a [`Node`] to a [`RawNode`], registering the node's content
    /// name in this schematic first if it is not present yet.
    pub fn convert_node_to_raw_node(&mut self, node: &Node) -> (r: RawNode)
        requires
            old(self).content_names@.len() <= 0x10000,
            name_index(old(self).names_seq(), node.content_name@) is Some || old(
                self,
            ).content_names@.len() < 0x10000,
        ensures
            final(self).names_seq() == spec_register(old(self).names_seq(), node.content_name@),
            r == spec_converted(old(self).names_seq(), *node),
            name_index(final(self).names_seq(), node.content_name@) == Some(r.content_id as int),
            final(self).content_names@.len() <= 0x10000,
            old(self).dict_unique() ==> final(self).dict_unique(),
            final(self).version == old(self).version,
            final(self).dimensions == old(self).dimensions,
            final(self).layer_probabilities == old(self).layer_probabilities,
            final(self).nodes == old(self).nodes,
    {
        let content_id = self.register_content(node.content_name.clone());
        RawNode::new(content_id, node.spawn_probability, node.force_placement, node.param2)
    }

    /// Places the provided `Node` at `coordinates`, overwriting whatever is
    /// there now; its content name is registered if absent. Fails with an
    /// out-of-bounds error, before any mutation, when the coordinates lie
    /// outside the grid.
    pub fn place_node(&mut self, node: &Node, coordinates: MapVector) -> (r: Result<(), Error>)
        requires
            old(self).wf(),
            node.spawn_probability.is_valid(),
            name_index(old(self).names_seq(), node.content_name@) is Some || old(
                self,
            ).content_names@.len() < 0x10000,
        ensures
            final(self).version == old(self).version,
            final(self).dimensions == old(self).dimensions,
            final(self).layer_probabilities == old(self).layer_probabilities,
            match r {
                Ok(()) => {
                    &&& old(self).dimensions.spec_contains(coordinates)
                    &&& final(self).names_seq() == spec_register(
                        old(self).names_seq(),
                        node.content_name@,
                    )
                    &&& final(self).nodes@ == old(self).nodes@.update(
                        old(self).dimensions.spec_index_of(
                            coordinates.x as int,
                            coordinates.y as int,
                            coordinates.z as int,
                        ),
                        spec_converted(old(self).names_seq(), *node),
                    )
                    &&& final(self).wf()
                    &&& (old(self).dict_unique() ==> final(self).dict_unique())
                },
                Err(e) => {
                    &&& e is OutOfBounds
                    &&& !old(self).dimensions.spec_contains(coordinates)
                    &&& final(self).content_names == old(self).content_names
                    &&& final(self).nodes == old(self).nodes
                },
            },
    {
        if !(coordinates.x < self.dimensions.x && coordinates.y < self.dimensions.y
            && coordinates.z < self.dimensions.z) {
            return Err(Error::OutOfBounds);
        }

        let stored = self.nodes.len();
        proof {
            assert(self.dimensions.spec_volume() <= stored);
        }
        let raw_node = self.convert_node_to_raw_node(node);
        let k = index_of_coords(self.dimensions, coordinates);
        self.nodes[k] = raw_node;
        proof {
            lemma_name_index_props(self.names_seq(), node.content_name@);
        }
        Ok(())
    }

    /// Starting at `from_position`, fills the box of extent `fill_space`
    /// with copies of the given `Node` (converted to a [`RawNode`], its
    /// content name registered if absent).
    ///
    /// The whole box is bounds-checked before any write: when it overflows
    /// the map bound or does not fit within the grid, an out-of-bounds
    /// error is returned and the grid is left completely unchanged.
    pub fn fill(&mut self, from_position: MapVector, fill_space: MapVector, node: &Node) -> (r:
        Result<(), Error>)
        requires
            old(self).wf(),
            node.spawn_probability.is_valid(),
            name_index(old(self).names_seq(), node.content_name@) is Some || old(
                self,
            ).content_names@.len() < 0x10000,
        ensures
            final(self).version == old(self).version,
            final(self).dimensions == old(self).dimensions,
            final(self).layer_probabilities == old(self).layer_probabilities,
            match r {
                Ok(()) => {
                    &&& box_fits(old(self).dimensions, from_position, fill_space)
                    &&& final(self).names_seq() == spec_register(
                        old(self).names_seq(),
                        node.content_name@,
                    )
                    &&& final(self).nodes@ == spec_fill_cells(
                        old(self).nodes@,
                        old(self).dimensions,
                        from_position,
                        fill_space,
                        spec_converted(old(self).names_seq(), *node),
                    )
                    &&& final(self).wf()
                    &&& (old(self).dict_unique() ==> final(self).dict_unique())
                },
                Err(e) => {
                    &&& e is OutOfBounds
                    &&& !box_fits(old(self).dimensions, from_position, fill_space)
                    &&& final(self).content_names == old(self).content_names
                    &&& final(self).nodes == old(self).nodes
                },
            },
    {
        let to = match from_position.checked_add(fill_space) {
            Some(to) => to,
            None => {
                return Err(Error::OutOfBounds);
            },
        };
        if to.x > self.dimensions.x || to.y > self.dimensions.y || to.z > self.dimensions.z {
            return Err(Error::OutOfBounds);
        }

        let raw_node = self.convert_node_to_raw_node(node);
        proof {
            lemma_name_index_props(self.names_seq(), node.content_name@);
        }
        let ghost target = spec_fill_cells(
            old(self).nodes@,
            old(self).dimensions,
            from_position,
            fill_space,
            raw_node,
        );

        let n = self.nodes.len();
        let mut k: usize = 0;
        while k < n
            invariant
                old(self).wf(),
                node.spawn_probability.is_valid(),
                0 <= k <= n,
                n == self.nodes@.len(),
                n as int == old(self).dimensions.spec_volume(),
                self.dimensions == old(self).dimensions,
                self.version == old(self).version,
                self.layer_probabilities == old(self).layer_probabilities,
                self.content_names@.map_values(|s: String| s@) == spec_register(
                    old(self).names_seq(),
                    node.content_name@,
                ),
                self.content_names@.len() <= 0x10000,
                old(self).dict_unique() ==> names_unique(
                    self.content_names@.map_values(|s: String| s@),
                ),
                raw_node == spec_converted(old(self).names_seq(), *node),
                raw_node.content_id < self.content_names@.len(),
                to.x == from_position.x + fill_space.x,
                to.y == from_position.y + fill_space.y,
                to.z == from_position.z + fill_space.z,
                target == spec_fill_cells(
                    old(self).nodes@,
                    old(self).dimensions,
                    from_position,
                    fill_space,
                    raw_node,
                ),
                target.len() == n,
                forall|j: int| 0 <= j < k ==> self.nodes@[j] == target[j],
                forall|j: int| k <= j < n ==> self.nodes@[j] == old(self).nodes@[j],
            decreases n - k,
        {
            let c = coords_of_index(self.dimensions, k);
            if from_position.x <= c.x && c.x < to.x && from_position.y <= c.y && c.y < to.y
                && from_position.z <= c.z && c.z < to.z {
                self.nodes[k] = raw_node;
            }
            k += 1;
        }
        proof {
            assert(self.nodes@ =~= target);
            assert(old(self).content_names@.len() <= self.content_names@.len());
            assert forall|j: int| 0 <= j < self.nodes@.len() implies (
            #[trigger] self.nodes@[j]).content_id < self.content_names@.len()
                && self.nodes@[j].spawn_probability <= 127 by {
                if !in_box(old(self).dimensions, from_position, fill_space, j) {
                    assert(old(self).nodes@[j].content_id < old(self).content_names@.len());
                }
            }
        }
        Ok(())
    }

    /// Builds a new `Schematic` one layer taller on the Y axis, with a full
    /// X-by-Z layer of `fill_with_node` (converted to a raw cell, its
    /// content name registered into the copy's dictionary if absent)
    /// inserted at height `y`. Layers below `y` keep their Y coordinate;
    /// layers at or above it shift up by one; the layer probability list
    /// grows by an `Always` entry at the same index. This never mutates the
    /// source grid. Fails with an out-of-bounds error when `y` exceeds the
    /// current height or the new height would reach the map bound.
    pub fn insert_layer(&self, y: u16, fill_with_node: &Node) -> (r: Result<Schematic, Error>)
        requires
            self.wf(),
            fill_with_node.spawn_probability.is_valid(),
            name_index(self.names_seq(), fill_with_node.content_name@) is Some
                || self.content_names@.len() < 0x10000,
            (self.dimensions.x as int) * (self.dimensions.y as int + 1) * (
            self.dimensions.z as int) <= usize::MAX,
        ensures
            match r {
                Ok(g) => {
                    &&& y <= self.dimensions.y
                    &&& self.dimensions.y as int + 1 < MAX_MAP_DIMENSION
                    &&& g.dimensions == (MapVector {
                        x: self.dimensions.x,
                        y: (self.dimensions.y + 1) as u16,
                        z: self.dimensions.z,
                    })
                    &&& g.names_seq() == spec_register(
                        self.names_seq(),
                        fill_with_node.content_name@,
                    )
                    &&& g.layer_probabilities@ == self.layer_probabilities@.insert(
                        y as int,
                        SpawnProbability::Always,
                    )
                    &&& forall|xx: int, yy: int, zz: int|
                        0 <= xx < g.dimensions.x && 0 <= yy < g.dimensions.y && 0 <= zz
                            < g.dimensions.z ==> #[trigger] g.cell(xx, yy, zz) == (if yy == y {
                            spec_converted(self.names_seq(), *fill_with_node)
                        } else if yy < y {
                            self.cell(xx, yy, zz)
                        } else {
                            self.cell(xx, yy - 1, zz)
                        })
                    &&& g.wf()
                    &&& (self.dict_unique() ==> g.dict_unique())
                },
                Err(e) => e is OutOfBounds && (y > self.dimensions.y || self.dimensions.y as int
                    + 1 >= MAX_MAP_DIMENSION),
            },
    {
        if y > self.dimensions.y {
            return Err(Error::OutOfBounds);
        }
        let one_up = MapVector { x: 0, y: 1, z: 0 };
        let new_dims = match self.dimensions.checked_add(one_up) {
            Some(d) => d,
            None => {
                return Err(Error::OutOfBounds);
            },
        };

        let mut names = clone_names(&self.content_names);
        let id = register_name(&mut names, fill_with_node.content_name.clone());
        let raw = RawNode::new(
            id,
            fill_with_node.spawn_probability,
            fill_with_node.force_placement,
            fill_with_node.param2,
        );
        proof {
            lemma_name_index_props(names@.map_values(|s: String| s@), fill_with_node.content_name@);
        }

        let mut probs = clone_probabilities(&self.layer_probabilities);
        probs.insert(y as usize, SpawnProbability::Always);

        let new_count: usize = new_dims.volume();
        let n_old = self.nodes.len();
        let mut nodes: Vec<RawNode> = Vec::new();
        let mut k: usize = 0;
        while k < new_count
            invariant
                self.wf(),
                y <= self.dimensions.y,
                new_dims.x == self.dimensions.x,
                new_dims.y == self.dimensions.y + 1,
                new_dims.z == self.dimensions.z,
                new_dims.in_bounds(),
                new_count as int == new_dims.spec_volume(),
                new_dims.spec_volume() <= usize::MAX,
                n_old == self.nodes@.len(),
                k <= new_count,
                nodes@.len() == k,
                forall|j: int|
                    0 <= j < k ==> nodes@[j] == spec_insert_layer_cell(
                        self.nodes@,
                        self.dimensions,
                        new_dims,
                        y as int,
                        raw,
                        j,
                    ),
            decreases new_count - k,
        {
            let c = coords_of_index(new_dims, k);
            let cell = if c.y == y {
                raw
            } else if c.y < y {
                self.nodes[index_of_coords(self.dimensions, c)]
            } else {
                self.nodes[index_of_coords(
                    self.dimensions,
                    MapVector { x: c.x, y: c.y - 1, z: c.z },
                )]
            };
            nodes.push(cell);
            k += 1;
        }

        let g = Schematic {
            version: self.version,
            dimensions: new_dims,
            layer_probabilities: probs,
            content_names: names,
            nodes,
        };
        proof {
            assert forall|xx: int, yy: int, zz: int|
                0 <= xx < g.dimensions.x && 0 <= yy < g.dimensions.y && 0 <= zz
                    < g.dimensions.z implies #[trigger] g.cell(xx, yy, zz) == (if yy == y {
                spec_converted(self.names_seq(), *fill_with_node)
            } else if yy < y {
                self.cell(xx, yy, zz)
            } else {
                self.cell(xx, yy - 1, zz)
            }) by {
                lemma_index_bounds(new_dims, xx, yy, zz);
                lemma_coords_of_index_of(new_dims, xx, yy, zz);
            }
            assert(self.content_names@.len() <= g.content_names@.len());
            assert forall|j: int| 0 <= j < g.nodes@.len() implies (
            #[trigger] g.nodes@[j]).content_id < g.content_names@.len()
                && g.nodes@[j].spawn_probability <= 127 by {
                lemma_index_of_coords_of(new_dims, j);
                let yy = new_dims.y_of(j);
                if yy != y {
                    let src_y = if yy < y {
                        yy
                    } else {
                        yy - 1
                    };
                    lemma_index_bounds(self.dimensions, new_dims.x_of(j), src_y, new_dims.z_of(j));
                    assert(self.nodes@[self.dimensions.spec_index_of(
                        new_dims.x_of(j),
                        src_y,
                        new_dims.z_of(j),
                    )].content_id < self.content_names@.len());
                }
            }
            assert forall|i: int| 0 <= i < g.layer_probabilities@.len() implies (
            #[trigger] g.layer_probabilities@[i]).is_valid() by {
                assert(g.layer_probabilities@ == self.layer_probabilities@.insert(
                    y as int,
                    SpawnProbability::Always,
                ));
                if i < y {
                    assert(g.layer_probabilities@[i] == self.layer_probabilities@[i]);
                } else if i > y {
                    assert(g.layer_probabilities@[i] == self.layer_probabilities@[i - 1]);
                }
            }
        }
        Ok(g)
    }

    /// Composites the entire `source` space into this grid, its origin cell
    /// landing at `merge_at`.
    ///
    /// The source's dictionary is unified into this grid's first — purely
    /// additively, novel names appended in source order — and every placed
    /// cell's content id is remapped through that unification, so it
    /// resolves to the same name it had in the source. Cell placement
    /// follows [`spec_merge_cell`]. Fails with an out-of-bounds error, and
    /// mutates nothing, when the source box does not fit.
    pub fn merge<S: NodeSpace>(&mut self, source: &S, merge_at: MapVector) -> (r: Result<
        (),
        Error,
    >)
        requires
            old(self).wf(),
            old(self).dict_unique(),
            source.space_wf(),
            names_unique(source.names_view()),
            spec_unify(old(self).names_seq(), source.names_view()).len() <= 0x10000,
        ensures
            final(self).version == old(self).version,
            final(self).dimensions == old(self).dimensions,
            final(self).layer_probabilities == old(self).layer_probabilities,
            match r {
                Ok(()) => {
                    &&& box_fits(old(self).dimensions, merge_at, source.spec_dimensions())
                    &&& final(self).names_seq() == spec_unify(
                        old(self).names_seq(),
                        source.names_view(),
                    )
                    &&& final(self).nodes@ == spec_merge_cells(
                        old(self).nodes@,
                        old(self).dimensions,
                        source.cells_view(),
                        source.spec_dimensions(),
                        merge_at,
                        spec_unify(old(self).names_seq(), source.names_view()),
                        source.names_view(),
                    )
                    &&& final(self).wf()
                    &&& final(self).dict_unique()
                },
                Err(e) => {
                    &&& e is OutOfBounds
                    &&& !box_fits(old(self).dimensions, merge_at, source.spec_dimensions())
                    &&& final(self).content_names == old(self).content_names
                    &&& final(self).nodes == old(self).nodes
                },
            },
    {
        proof {
            source.space_wf_facts();
        }
        let src_dims = source.dimensions();
        let merge_end = match merge_at.checked_add(src_dims) {
            Some(e) => e,
            None => {
                return Err(Error::OutOfBounds);
            },
        };
        if merge_end.x > self.dimensions.x || merge_end.y > self.dimensions.y || merge_end.z
            > self.dimensions.z {
            return Err(Error::OutOfBounds);
        }

        let ghost a = old(self).names_seq();
        let ghost b = source.names_view();
        let ghost unified = spec_unify(a, b);
        proof {
            lemma_unify_grows(a, b);
            assert(b.subrange(0, b.len() as int) =~= b);
        }

        // Dictionary unification: register every source name, remembering
        // the id each one ends up with.
        let src_names: &Vec<String> = source.content_names();
        let mut remap: Vec<u16> = Vec::new();
        let mut i: usize = 0;
        while i < src_names.len()
            invariant
                b == src_names@.map_values(|s: String| s@),
                names_unique(b),
                unified == spec_unify(a, b),
                unified.len() <= 0x10000,
                i <= src_names@.len(),
                remap@.len() == i,
                spec_unify(
                    self.content_names@.map_values(|s: String| s@),
                    b.subrange(i as int, b.len() as int),
                ) == unified,
                names_unique(self.content_names@.map_values(|s: String| s@)),
                self.content_names@.len() <= 0x10000,
                forall|j: int|
                    0 <= j < i ==> name_index(
                        self.content_names@.map_values(|s: String| s@),
                        b[j],
                    ) == Some(#[trigger] remap@[j] as int),
                self.version == old(self).version,
                self.dimensions == old(self).dimensions,
                self.layer_probabilities == old(self).layer_probabilities,
                self.nodes == old(self).nodes,
            decreases src_names@.len() - i,
        {
            let ghost names_i = self.content_names@.map_values(|s: String| s@);
            let ghost rest = b.subrange(i as int, b.len() as int);
            proof {
                assert(rest[0] == b[i as int]);
                assert(rest.subrange(1, rest.len() as int) =~= b.subrange(
                    i as int + 1,
                    b.len() as int,
                ));
                assert(spec_unify(names_i, rest) == spec_unify(
                    spec_register(names_i, b[i as int]),
                    b.subrange(i as int + 1, b.len() as int),
                ));
                lemma_unify_grows(
                    spec_register(names_i, b[i as int]),
                    b.subrange(i as int + 1, b.len() as int),
                );
                lemma_register_props(names_i, b[i as int]);
                if name_index(names_i, b[i as int]) is None {
                    assert(spec_register(names_i, b[i as int]).len() == names_i.len() + 1);
                }
            }
            let id = register_name(&mut self.content_names, src_names[i].clone());
            remap.push(id);
            proof {
                assert forall|j: int| 0 <= j < i + 1 implies name_index(
                    self.content_names@.map_values(|s: String| s@),
                    b[j],
                ) == Some(#[trigger] remap@[j] as int) by {
                    if j < i {
                        assert(b[j] != b[i as int]);
                    }
                }
            }
            i += 1;
        }
        proof {
            assert(b.subrange(src_names@.len() as int, b.len() as int) =~= Seq::<
                Seq<char>,
            >::empty());
            assert(self.content_names@.map_values(|s: String| s@) == unified);
        }

        // The two contents Luanti treats as "nothing" when deciding whether
        // an unforced never-spawning cell may take a position.
        let air_name: String = "air".to_owned();
        let content_air = find_name(&self.content_names, &air_name);
        let ignore_name: String = "ignore".to_owned();
        let content_ignore = find_name(&self.content_names, &ignore_name);
        proof {
            lemma_name_index_props(unified, "air"@);
            lemma_name_index_props(unified, "ignore"@);
        }

        let src_cells: Vec<RawNode> = source.raw_nodes();
        let ghost old_cells = old(self).nodes@;
        let ghost dims = old(self).dimensions;
        let ghost sdv = source.spec_dimensions();
        let ghost merged = spec_merge_cells(old_cells, dims, source.cells_view(), sdv, merge_at, unified, b);
        let n_src = src_cells.len();
        let n_tgt = self.nodes.len();
        let mut k: usize = 0;
        while k < n_src
            invariant
                k <= n_src,
                src_cells@ == source.cells_view(),
                n_src == src_cells@.len(),
                n_src as int == sdv.spec_volume(),
                sdv == src_dims,
                sdv.in_bounds(),
                dims == old(self).dimensions,
                dims.in_bounds(),
                self.dimensions == dims,
                merge_at.x + sdv.x <= dims.x,
                merge_at.y + sdv.y <= dims.y,
                merge_at.z + sdv.z <= dims.z,
                n_tgt == self.nodes@.len(),
                n_tgt == old_cells.len(),
                old_cells == old(self).nodes@,
                n_tgt as int == dims.spec_volume(),
                forall|j: int|
                    0 <= j < n_src ==> (#[trigger] src_cells@[j]).content_id < b.len()
                        && src_cells@[j].spawn_probability <= 127,
                b == source.names_view(),
                b.len() == remap@.len(),
                unified == spec_unify(a, b),
                unified.len() <= 0x10000,
                self.content_names@.map_values(|s: String| s@) == unified,
                self.content_names@.len() <= 0x10000,
                names_unique(unified),
                forall|j: int|
                    0 <= j < remap@.len() ==> name_index(unified, b[j]) == Some(
                        #[trigger] remap@[j] as int,
                    ),
                match name_index(unified, "air"@) {
                    Some(p) => 0 <= p < unified.len() && content_air == Some(p as usize),
                    None => content_air is None,
                },
                match name_index(unified, "ignore"@) {
                    Some(p) => 0 <= p < unified.len() && content_ignore == Some(p as usize),
                    None => content_ignore is None,
                },
                merged == spec_merge_cells(old_cells, dims, src_cells@, sdv, merge_at, unified, b),
                merged.len() == n_tgt,
                forall|j: int|
                    #![trigger self.nodes@[j]]
                    0 <= j < n_tgt ==> self.nodes@[j] == (if in_box(dims, merge_at, sdv, j)
                        && spec_source_pos(dims, sdv, merge_at, j) < k {
                        merged[j]
                    } else {
                        old_cells[j]
                    }),
                self.version == old(self).version,
                self.layer_probabilities == old(self).layer_probabilities,
            decreases n_src - k,
        {
            let sc_coords = coords_of_index(src_dims, k);
            let t_coords = MapVector {
                x: merge_at.x + sc_coords.x,
                y: merge_at.y + sc_coords.y,
                z: merge_at.z + sc_coords.z,
            };
            let t_idx = index_of_coords(self.dimensions, t_coords);
            let tcell = self.nodes[t_idx];
            let scell = src_cells[k];
            proof {
                lemma_coords_of_index_of(
                    dims,
                    t_coords.x as int,
                    t_coords.y as int,
                    t_coords.z as int,
                );
                assert(in_box(dims, merge_at, sdv, t_idx as int));
                assert(spec_source_pos(dims, sdv, merge_at, t_idx as int) == k);
                assert(tcell == old_cells[t_idx as int]);
            }

            let place = if scell.spawn_probability == 0 && !scell.force_placement {
                let mut transparent = false;
                match content_air {
                    Some(p) => {
                        if tcell.content_id as usize == p {
                            transparent = true;
                        }
                    },
                    None => {},
                }
                match content_ignore {
                    Some(p) => {
                        if tcell.content_id as usize == p {
                            transparent = true;
                        }
                    },
                    None => {},
                }
                proof {
                    assert(transparent == spec_transparent(unified, tcell.content_id));
                }
                transparent
            } else {
                true
            };

            if place {
                let new_id = remap[scell.content_id as usize];
                self.nodes[t_idx] = RawNode {
                    content_id: new_id,
                    spawn_probability: scell.spawn_probability,
                    force_placement: scell.force_placement,
                    param2: scell.param2,
                };
                proof {
                    assert(new_id == spec_remapped_id(unified, b, scell.content_id));
                }
            }

            proof {
                assert(self.nodes@[t_idx as int] == merged[t_idx as int]);
                assert forall|j: int|
                    0 <= j < n_tgt && j != t_idx as int && in_box(dims, merge_at, sdv, j) implies
                    spec_source_pos(dims, sdv, merge_at, j) != k as int by {
                    if spec_source_pos(dims, sdv, merge_at, j) == k as int {
                        lemma_index_of_coords_of(dims, j);
                        let sx = dims.x_of(j) - merge_at.x;
                        let sy = dims.y_of(j) - merge_at.y;
                        let sz = dims.z_of(j) - merge_at.z;
                        lemma_coords_of_index_of(sdv, sx, sy, sz);
                        assert(sx == sc_coords.x && sy == sc_coords.y && sz == sc_coords.z);
                        assert(dims.x_of(j) == t_coords.x && dims.y_of(j) == t_coords.y
                            && dims.z_of(j) == t_coords.z);
                        assert(j == t_idx as int);
                    }
                }
                assert forall|j: int|
                    #![trigger self.nodes@[j]]
                    0 <= j < n_tgt implies self.nodes@[j] == (if in_box(
                    dims,
                    merge_at,
                    sdv,
                    j,
                ) && spec_source_pos(dims, sdv, merge_at, j) < k + 1 {
                    merged[j]
                } else {
                    old_cells[j]
                }) by {
                    if j != t_idx as int {
                        assert(self.nodes@[j] == (if in_box(dims, merge_at, sdv, j)
                            && spec_source_pos(dims, sdv, merge_at, j) < k as int {
                            merged[j]
                        } else {
                            old_cells[j]
                        }));
                    }
                }
            }
            k += 1;
        }

        proof {
            assert forall|j: int| 0 <= j < n_tgt implies self.nodes@[j] == merged[j] by {
                if in_box(dims, merge_at, sdv, j) {
                    lemma_index_of_coords_of(dims, j);
                    lemma_index_bounds(
                        sdv,
                        dims.x_of(j) - merge_at.x,
                        dims.y_of(j) - merge_at.y,
                        dims.z_of(j) - merge_at.z,
                    );
                }
            }
            assert(self.nodes@ =~= merged);
            // The merged grid stays well-formed: every placed id points into
            // the unified dictionary, every kept id already did.
            assert(a.len() == old(self).content_names@.len());
            assert(self.content_names@.len() == unified.len());
            assert forall|j: int| 0 <= j < self.nodes@.len() implies (
            #[trigger] self.nodes@[j]).content_id < self.content_names@.len()
                && self.nodes@[j].spawn_probability <= 127 by {
                assert(old(self).nodes@[j].content_id < old(self).content_names@.len());
                assert(old_cells[j].content_id < a.len() && old_cells[j].spawn_probability <= 127);
                if in_box(dims, merge_at, sdv, j) {
                    let sp = spec_source_pos(dims, sdv, merge_at, j);
                    lemma_index_of_coords_of(dims, j);
                    lemma_index_bounds(
                        sdv,
                        dims.x_of(j) - merge_at.x,
                        dims.y_of(j) - merge_at.y,
                        dims.z_of(j) - merge_at.z,
                    );
                    let sc = src_cells@[sp];
                    assert(sc.content_id < b.len());
                    assert(name_index(unified, b[sc.content_id as int]) == Some(
                        remap@[sc.content_id as int] as int,
                    ));
                    lemma_name_index_props(unified, b[sc.content_id as int]);
                }
            }
        }
        Ok(())
    }

    /// Splits the grid into as many whole chunks of extent
    /// `chunk_dimensions` as fit, enumerated X first, then Y, then Z.
    /// Remainder cells that form no whole chunk along an axis are silently
    /// dropped. Each chunk carries a full copy of this grid's dictionary,
    /// so its cell ids are valid without remapping. The source grid is not
    /// mutated. A zero chunk extent is a precondition violation.
    pub fn split_into_chunks(&self, chunk_dimensions: MapVector) -> (r: Vec<Schematic>)
        requires
            self.wf(),
            chunk_dimensions.x > 0,
            chunk_dimensions.y > 0,
            chunk_dimensions.z > 0,
            chunk_dimensions.in_bounds(),
        ensures
            r@.len() == spec_chunk_grid(self.dimensions, chunk_dimensions).spec_volume(),
            forall|m: int|
                0 <= m < r@.len() ==> chunk_matches(*self, chunk_dimensions, m, #[trigger] r@[m])
                    && (self.dict_unique() ==> r@[m].dict_unique()),
    {
        let c = chunk_dimensions;
        let d = self.dimensions;
        let cg = MapVector { x: d.x / c.x, y: d.y / c.y, z: d.z / c.z };
        let n_vec = self.nodes.len();
        proof {
            assert(cg.spec_volume() <= d.spec_volume()) by (nonlinear_arith)
                requires
                    0 <= cg.x <= d.x,
                    0 <= cg.y <= d.y,
                    0 <= cg.z <= d.z,
                    cg.spec_volume() == cg.x * cg.y * cg.z,
                    d.spec_volume() == d.x * d.y * d.z,
            ;
        }
        let n_chunks: usize = cg.volume();
        let mut out: Vec<Schematic> = Vec::new();
        let mut m: usize = 0;
        while m < n_chunks
            invariant
                self.wf(),
                c == chunk_dimensions,
                c.x > 0,
                c.y > 0,
                c.z > 0,
                c.in_bounds(),
                d == self.dimensions,
                cg == spec_chunk_grid(d, c),
                n_chunks as int == cg.spec_volume(),
                n_vec == self.nodes@.len(),
                m <= n_chunks,
                out@.len() == m,
                forall|mm: int|
                    0 <= mm < m ==> chunk_matches(*self, c, mm, #[trigger] out@[mm]) && (
                    self.dict_unique() ==> out@[mm].dict_unique()),
            decreases n_chunks - m,
        {
            let cc = coords_of_index(cg, m);
            proof {
                lemma_fundamental_div_mod(d.x as int, c.x as int);
                lemma_fundamental_div_mod(d.y as int, c.y as int);
                lemma_fundamental_div_mod(d.z as int, c.z as int);
                assert((cc.x as int) * (c.x as int) + c.x <= d.x && (cc.y as int) * (c.y as int)
                    + c.y <= d.y && (cc.z as int) * (c.z as int) + c.z <= d.z && c.spec_volume()
                    <= d.spec_volume()) by (nonlinear_arith)
                    requires
                        0 <= cc.x < cg.x,
                        0 <= cc.y < cg.y,
                        0 <= cc.z < cg.z,
                        c.x > 0,
                        c.y > 0,
                        c.z > 0,
                        cg.x == d.x as int / c.x as int,
                        cg.y == d.y as int / c.y as int,
                        cg.z == d.z as int / c.z as int,
                        d.x as int == (c.x as int) * (d.x as int / c.x as int) + (d.x as int % c.x as int),
                        d.y as int == (c.y as int) * (d.y as int / c.y as int) + (d.y as int % c.y as int),
                        d.z as int == (c.z as int) * (d.z as int / c.z as int) + (d.z as int % c.z as int),
                        d.x as int % c.x as int >= 0,
                        d.y as int % c.y as int >= 0,
                        d.z as int % c.z as int >= 0,
                        c.spec_volume() == c.x * c.y * c.z,
                        d.spec_volume() == d.x * d.y * d.z,
                ;
            }
            let ox = cc.x * c.x;
            let oy = cc.y * c.y;
            let oz = cc.z * c.z;
            let chunk_vol: usize = c.volume();
            let ghost target = spec_chunk_cells(self.nodes@, d, c, ox as int, oy as int, oz as int);
            let mut chunk_nodes: Vec<RawNode> = Vec::new();
            let mut k: usize = 0;
            while k < chunk_vol
                invariant
                    self.wf(),
                    c.in_bounds(),
                    d == self.dimensions,
                    chunk_vol as int == c.spec_volume(),
                    c.spec_volume() <= usize::MAX,
                    n_vec == self.nodes@.len(),
                    ox as int + c.x <= d.x,
                    oy as int + c.y <= d.y,
                    oz as int + c.z <= d.z,
                    target == spec_chunk_cells(self.nodes@, d, c, ox as int, oy as int, oz as int),
                    k <= chunk_vol,
                    chunk_nodes@.len() == k,
                    forall|j: int| 0 <= j < k ==> chunk_nodes@[j] == target[j],
                decreases chunk_vol - k,
            {
                let lc = coords_of_index(c, k);
                let p = MapVector { x: ox + lc.x, y: oy + lc.y, z: oz + lc.z };
                let pi = index_of_coords(d, p);
                chunk_nodes.push(self.nodes[pi]);
                k += 1;
            }
            let chunk = Schematic {
                version: 4,
                dimensions: c,
                layer_probabilities: repeat_probability(c.y as usize, SpawnProbability::Always),
                content_names: clone_names(&self.content_names),
                nodes: chunk_nodes,
            };
            proof {
                assert(chunk.names_seq() == self.names_seq());
                assert(chunk.nodes@ =~= target);
                assert forall|j: int| 0 <= j < chunk.nodes@.len() implies (
                #[trigger] chunk.nodes@[j]).content_id < chunk.content_names@.len()
                    && chunk.nodes@[j].spawn_probability <= 127 by {
                    lemma_index_of_coords_of(c, j);
                    lemma_index_bounds(d, ox + c.x_of(j), oy + c.y_of(j), oz + c.z_of(j));
                    assert(self.nodes@[d.spec_index_of(
                        ox + c.x_of(j),
                        oy + c.y_of(j),
                        oz + c.z_of(j),
                    )].content_id < self.content_names@.len());
                }
                assert(chunk_matches(*self, c, m as int, chunk));
            }
            out.push(chunk);
            m += 1;
        }
        out
    }
}

} // verus!

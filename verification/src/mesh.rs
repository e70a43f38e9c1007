//! Mesh data: vertices, triangle indices and subsets, and their validation.
use vstd::prelude::*;
use crate::text::{append_u64, decimal, string_append, string_from};

verus! {

/// A sub-range of a mesh, usually drawn with one material.
///
/// Vertices are counted in vertices, faces in triangles.
#[derive(Debug, Clone, PartialEq, Eq, Structural)]
pub struct Subset {
    pub id: u32,
    pub vertex_start: u32,
    pub vertex_count: u32,
    pub face_start: u32,
    pub face_count: u32,
}

impl Subset {
    pub fn new(id: u32, vertex_start: u32, vertex_count: u32, face_start: u32, face_count: u32) -> (s: Self)
        ensures
            s == (Subset { id, vertex_start, vertex_count, face_start, face_count }),
    {
        Subset { id, vertex_start, vertex_count, face_start, face_count }
    }

    /// First index of the subset in the index buffer (three indices per triangle).
    pub fn index_start(&self) -> (r: u32)
        requires
            self.face_start * 3 <= u32::MAX,
        ensures
            r == self.face_start * 3,
    {
        self.face_start * 3
    }

    /// Number of indices of the subset (three per triangle).
    pub fn index_count(&self) -> (r: u32)
        requires
            self.face_count * 3 <= u32::MAX,
        ensures
            r == self.face_count * 3,
    {
        self.face_count * 3
    }
}

/// Vertices, triangle indices and subsets of one mesh.
///
/// The vertex type is left to the caller; the bookkeeping here does not look
/// inside vertices.
#[derive(Debug, Clone)]
pub struct MeshData<V> {
    pub vertices: Vec<V>,
    pub indices: Vec<u32>,
    pub subsets: Vec<Subset>,
    pub name: Option<String>,
}

/// The vertex count as `validate` compares it, in a `u32`.
pub open spec fn vertex_total<V>(m: MeshData<V>) -> nat {
    (#[verifier::truncate] (m.vertices@.len() as u32)) as nat
}

/// Index `k` points at an existing vertex.
pub open spec fn index_ok<V>(m: MeshData<V>, k: int) -> bool {
    m.indices@[k] < vertex_total(m)
}

/// `k` is the first index that points past the vertices.
pub open spec fn is_first_bad_index<V>(m: MeshData<V>, k: int) -> bool {
    &&& 0 <= k < m.indices@.len()
    &&& !index_ok(m, k)
    &&& forall|j: int| 0 <= j < k ==> index_ok(m, j)
}

/// Whole triangles, and every index points at an existing vertex.
pub open spec fn indices_valid<V>(m: MeshData<V>) -> bool {
    &&& m.indices@.len() % 3 == 0
    &&& forall|k: int| 0 <= k < m.indices@.len() ==> index_ok(m, k)
}

/// The triangle count as `validate` compares it, in a `u32`.
pub open spec fn triangle_total<V>(m: MeshData<V>) -> nat {
    ((m.indices@.len() / 3) as u32) as nat
}

pub open spec fn subset_vertices_fit<V>(m: MeshData<V>, i: int) -> bool {
    m.subsets@[i].vertex_start + m.subsets@[i].vertex_count <= vertex_total(m)
}

pub open spec fn subset_faces_fit<V>(m: MeshData<V>, i: int) -> bool {
    m.subsets@[i].face_start + m.subsets@[i].face_count <= triangle_total(m)
}

/// Subset `i` lies within the vertices and within the triangles.
pub open spec fn subset_ok<V>(m: MeshData<V>, i: int) -> bool {
    subset_vertices_fit(m, i) && subset_faces_fit(m, i)
}

pub open spec fn is_first_bad_subset<V>(m: MeshData<V>, i: int) -> bool {
    &&& 0 <= i < m.subsets@.len()
    &&& !subset_ok(m, i)
    &&& forall|j: int| 0 <= j < i ==> subset_ok(m, j)
}

/// What `validate` accepts.
pub open spec fn mesh_valid<V>(m: MeshData<V>) -> bool {
    &&& indices_valid(m)
    &&& forall|i: int| 0 <= i < m.subsets@.len() ==> subset_ok(m, i)
}

pub open spec fn index_count_message(count: nat) -> Seq<char> {
    "索引数量必须是3的倍数，当前为: "@ + decimal(count)
}

/// The last valid index, as a `u32` that wraps around: `u32::MAX` when there
/// are no vertices.
pub open spec fn last_vertex_index(vertex_count: nat) -> nat {
    if vertex_count == 0 {
        u32::MAX as nat
    } else {
        (vertex_count - 1) as nat
    }
}

pub open spec fn index_range_message(k: nat, value: nat, vertex_count: nat) -> Seq<char> {
    "索引 "@ + decimal(k) + " 处的值 "@ + decimal(value) + " 超出顶点范围 (0-"@ + decimal(
        last_vertex_index(vertex_count),
    ) + ")"@
}

/// `what` tells which range of subset `i` is out of bounds.
pub open spec fn subset_range_message(
    i: nat,
    what: Seq<char>,
    start: nat,
    count: nat,
    total: nat,
) -> Seq<char> {
    "子网格 "@ + decimal(i) + what + ": start="@ + decimal(start) + ", count="@ + decimal(count)
        + ", total="@ + decimal(total)
}

/// The message of the first check that fails: the index count, then each
/// index in order, then each subset in order (vertices before faces).
pub open spec fn validation_message<V>(m: MeshData<V>) -> Seq<char> {
    if m.indices@.len() % 3 != 0 {
        index_count_message(m.indices@.len())
    } else if exists|k: int| 0 <= k < m.indices@.len() && !index_ok(m, k) {
        let k = choose|k: int| is_first_bad_index(m, k);
        index_range_message(k as nat, m.indices@[k] as nat, vertex_total(m))
    } else {
        let i = choose|i: int| is_first_bad_subset(m, i);
        let s = m.subsets@[i];
        if !subset_vertices_fit(m, i) {
            subset_range_message(
                i as nat,
                " 的顶点范围超出边界"@,
                s.vertex_start as nat,
                s.vertex_count as nat,
                vertex_total(m),
            )
        } else {
            subset_range_message(
                i as nat,
                " 的面范围超出边界"@,
                s.face_start as nat,
                s.face_count as nat,
                triangle_total(m),
            )
        }
    }
}

/// `validate` gets as far as subset `i`: every earlier subset passed.
pub open spec fn subset_reached<V>(m: MeshData<V>, i: int) -> bool {
    &&& 0 <= i < m.subsets@.len()
    &&& forall|j: int| 0 <= j < i ==> subset_ok(m, j)
}

/// The range ends of subset `i` that `validate` computes fit in a `u32`.
pub open spec fn subset_sums_fit<V>(m: MeshData<V>, i: int) -> bool {
    &&& m.subsets@[i].vertex_start + m.subsets@[i].vertex_count <= u32::MAX
    &&& subset_vertices_fit(m, i) ==> m.subsets@[i].face_start + m.subsets@[i].face_count
        <= u32::MAX
}

/// The sums that `validate` forms stay within `u32` wherever it forms them:
/// the range ends of each subset it reaches.
pub open spec fn validation_fits_u32<V>(m: MeshData<V>) -> bool {
    indices_valid(m) ==> forall|i: int| #[trigger] subset_reached(m, i) ==> subset_sums_fit(m, i)
}

proof fn lemma_first_bad_index_unique<V>(m: MeshData<V>, k: int)
    requires
        is_first_bad_index(m, k),
    ensures
        (choose|k2: int| is_first_bad_index(m, k2)) == k,
{
    let k2 = choose|k2: int| is_first_bad_index(m, k2);
    assert(is_first_bad_index(m, k2));
    if k2 < k {
        assert(index_ok(m, k2));
    }
    if k < k2 {
        assert(index_ok(m, k));
    }
}

proof fn lemma_first_bad_subset_unique<V>(m: MeshData<V>, i: int)
    requires
        is_first_bad_subset(m, i),
    ensures
        (choose|i2: int| is_first_bad_subset(m, i2)) == i,
{
    let i2 = choose|i2: int| is_first_bad_subset(m, i2);
    assert(is_first_bad_subset(m, i2));
    if i2 < i {
        assert(subset_ok(m, i2));
    }
    if i < i2 {
        assert(subset_ok(m, i));
    }
}

/// "子网格 <i><what>: start=<start>, count=<count>, total=<total>".
fn subset_message(i: usize, what: &str, start: u32, count: u32, total: u32) -> (r: String)
    ensures
        r@ == subset_range_message(i as nat, what@, start as nat, count as nat, total as nat),
{
    let mut s = string_from("子网格 ");
    append_u64(&mut s, i as u64);
    string_append(&mut s, what);
    string_append(&mut s, ": start=");
    append_u64(&mut s, start as u64);
    string_append(&mut s, ", count=");
    append_u64(&mut s, count as u64);
    string_append(&mut s, ", total=");
    append_u64(&mut s, total as u64);
    s
}

/// Each index moved up by `offset`.
pub open spec fn shifted_indices(indices: Seq<u32>, offset: u32) -> Seq<u32> {
    indices.map_values(|i: u32| (offset + i) as u32)
}

/// The subset `append_model` adds for a model with `vertex_count` vertices and
/// `index_count` indices, appended after `vertices_before` vertices and
/// `indices_before` indices; counts are truncated to `u32`.
pub open spec fn model_subset(
    model_index: usize,
    vertices_before: nat,
    indices_before: nat,
    vertex_count: nat,
    index_count: nat,
) -> Subset {
    Subset {
        id: model_index as u32,
        vertex_start: vertices_before as u32,
        vertex_count: vertex_count as u32,
        face_start: (indices_before / 3) as u32,
        face_count: (index_count / 3) as u32,
    }
}

/// Appending a model whose indices are whole triangles over its own vertices
/// keeps a valid mesh valid, as long as the vertex and triangle counts fit in
/// a `u32`.
pub proof fn lemma_append_model_keeps_valid<V>(
    before: MeshData<V>,
    after: MeshData<V>,
    model_index: usize,
    vertices: Seq<V>,
    model_indices: Seq<u32>,
)
    requires
        mesh_valid(before),
        model_indices.len() % 3 == 0,
        forall|k: int| 0 <= k < model_indices.len() ==> #[trigger] model_indices[k] < vertices.len(),
        before.vertices@.len() + vertices.len() <= u32::MAX,
        (before.indices@.len() + model_indices.len()) / 3 <= u32::MAX,
        after.vertices@ == before.vertices@ + vertices,
        after.indices@ == before.indices@ + shifted_indices(
            model_indices,
            before.vertices@.len() as u32,
        ),
        after.subsets@ == before.subsets@.push(
            model_subset(
                model_index,
                before.vertices@.len(),
                before.indices@.len(),
                vertices.len(),
                model_indices.len(),
            ),
        ),
    ensures
        mesh_valid(after),
{
    let vs = before.vertices@.len();
    let n0 = before.indices@.len();
    assert(after.indices@.len() == n0 + model_indices.len());
    assert forall|k: int| 0 <= k < after.indices@.len() implies index_ok(after, k) by {
        if k < n0 {
            assert(after.indices@[k] == before.indices@[k]);
            assert(index_ok(before, k));
        } else {
            let j = k - n0;
            assert(after.indices@[k] == shifted_indices(model_indices, vs as u32)[j]);
            assert(model_indices[j] < vertices.len());
        }
    }
    assert(triangle_total(before) == n0 / 3);
    assert(triangle_total(after) == (n0 + model_indices.len()) / 3);
    assert forall|i: int| 0 <= i < after.subsets@.len() implies subset_ok(after, i) by {
        if i < before.subsets@.len() {
            assert(after.subsets@[i] == before.subsets@[i]);
            assert(subset_ok(before, i));
        } else {
            assert(after.subsets@[i] == model_subset(
                model_index,
                vs,
                n0,
                vertices.len(),
                model_indices.len(),
            ));
        }
    }
}

impl<V> MeshData<V> {
    /// An empty mesh without a name.
    pub fn new() -> (m: Self)
        ensures
            m.vertices@.len() == 0,
            m.indices@.len() == 0,
            m.subsets@.len() == 0,
            m.name is None,
    {
        MeshData { vertices: Vec::new(), indices: Vec::new(), subsets: Vec::new(), name: None }
    }

    /// An empty mesh called `name`.
    pub fn with_name(name: &str) -> (m: Self)
        ensures
            m.vertices@.len() == 0,
            m.indices@.len() == 0,
            m.subsets@.len() == 0,
            m.name matches Some(n) && n@ == name@,
    {
        MeshData {
            vertices: Vec::new(),
            indices: Vec::new(),
            subsets: Vec::new(),
            name: Some(string_from(name)),
        }
    }

    /// An empty mesh with room reserved for vertices and indices.
    pub fn with_capacity(vertex_capacity: usize, index_capacity: usize) -> (m: Self)
        ensures
            m.vertices@.len() == 0,
            m.indices@.len() == 0,
            m.subsets@.len() == 0,
            m.name is None,
    {
        MeshData {
            vertices: Vec::with_capacity(vertex_capacity),
            indices: Vec::with_capacity(index_capacity),
            subsets: Vec::new(),
            name: None,
        }
    }

    pub fn vertex_count(&self) -> (r: usize)
        ensures
            r == self.vertices@.len(),
    {
        self.vertices.len()
    }

    pub fn index_count(&self) -> (r: usize)
        ensures
            r == self.indices@.len(),
    {
        self.indices.len()
    }

    /// Whole triangles in the index buffer.
    pub fn triangle_count(&self) -> (r: usize)
        ensures
            r == self.indices@.len() / 3,
    {
        self.indices.len() / 3
    }

    /// Checks that the indices form whole triangles over existing vertices and
    /// that every subset lies within the vertices and the triangles; on
    /// failure, describes the first problem found. Counts are compared as
    /// `u32`, the width of an index. Without vertices, the range in the message
    /// ends at `u32::MAX`, the last index wrapped around.
    pub fn validate(&self) -> (r: Result<(), String>)
        requires
            validation_fits_u32(*self),
        ensures
            r is Ok <==> mesh_valid(*self),
            r matches Err(msg) ==> msg@ == validation_message(*self),
    {
        let n = self.indices.len();
        if n % 3 != 0 {
            let mut s = string_from("索引数量必须是3的倍数，当前为: ");
            append_u64(&mut s, n as u64);
            return Err(s);
        }
        let vertex_count = #[verifier::truncate] (self.vertices.len() as u32);
        let mut k: usize = 0;
        while k < n
            invariant
                n == self.indices@.len(),
                n % 3 == 0,
                vertex_count == vertex_total(*self),
                k <= n,
                forall|j: int| 0 <= j < k ==> index_ok(*self, j),
            decreases n - k,
        {
            let index = self.indices[k];
            if index >= vertex_count {
                assert(!index_ok(*self, k as int));
                proof {
                    lemma_first_bad_index_unique(*self, k as int);
                }
                let mut s = string_from("索引 ");
                append_u64(&mut s, k as u64);
                string_append(&mut s, " 处的值 ");
                append_u64(&mut s, index as u64);
                string_append(&mut s, " 超出顶点范围 (0-");
                append_u64(&mut s, vertex_count.wrapping_sub(1) as u64);
                string_append(&mut s, ")");
                return Err(s);
            }
            k = k + 1;
        }
        assert(indices_valid(*self));
        let triangle_count = #[verifier::truncate] ((n / 3) as u32);
        let mut i: usize = 0;
        while i < self.subsets.len()
            invariant
                validation_fits_u32(*self),
                indices_valid(*self),
                n == self.indices@.len(),
                vertex_count == vertex_total(*self),
                triangle_count == triangle_total(*self),
                i <= self.subsets@.len(),
                forall|j: int| 0 <= j < i ==> subset_ok(*self, j),
            decreases self.subsets@.len() - i,
        {
            let subset = &self.subsets[i];
            assert(subset_reached(*self, i as int));
            if subset.vertex_start + subset.vertex_count > vertex_count {
                proof {
                    lemma_first_bad_subset_unique(*self, i as int);
                }
                return Err(
                    subset_message(
                        i,
                        " 的顶点范围超出边界",
                        subset.vertex_start,
                        subset.vertex_count,
                        vertex_count,
                    ),
                );
            }
            if subset.face_start + subset.face_count > triangle_count {
                proof {
                    lemma_first_bad_subset_unique(*self, i as int);
                }
                return Err(
                    subset_message(
                        i,
                        " 的面范围超出边界",
                        subset.face_start,
                        subset.face_count,
                        triangle_count,
                    ),
                );
            }
            i = i + 1;
        }
        Ok(())
    }

    /// Whether `validate` can run without a range end overflowing a `u32`:
    /// the condition under which it is defined.
    pub fn validation_fits(&self) -> (r: bool)
        ensures
            r == validation_fits_u32(*self),
    {
        let n = self.indices.len();
        if n % 3 != 0 {
            return true;
        }
        let vertex_count = #[verifier::truncate] (self.vertices.len() as u32);
        let mut k: usize = 0;
        while k < n
            invariant
                n == self.indices@.len(),
                vertex_count == vertex_total(*self),
                k <= n,
                forall|j: int| 0 <= j < k ==> index_ok(*self, j),
            decreases n - k,
        {
            if self.indices[k] >= vertex_count {
                assert(!index_ok(*self, k as int));
                assert(!indices_valid(*self));
                return true;
            }
            k = k + 1;
        }
        assert(indices_valid(*self));
        let triangle_count = #[verifier::truncate] ((n / 3) as u32);
        let mut i: usize = 0;
        while i < self.subsets.len()
            invariant
                indices_valid(*self),
                n == self.indices@.len(),
                vertex_count == vertex_total(*self),
                triangle_count == triangle_total(*self),
                i <= self.subsets@.len(),
                forall|j: int| 0 <= j < i ==> subset_ok(*self, j) && subset_sums_fit(*self, j),
            decreases self.subsets@.len() - i,
        {
            let subset = &self.subsets[i];
            assert(subset_reached(*self, i as int));
            if subset.vertex_start as u64 + subset.vertex_count as u64 > u32::MAX as u64 {
                return false;
            }
            if subset.vertex_start + subset.vertex_count > vertex_count {
                proof {
                    assert forall|q: int| #[trigger] subset_reached(*self, q) implies subset_sums_fit(*self, q) by {
                        if q > i {
                            assert(!subset_ok(*self, i as int));
                        }
                    }
                }
                return true;
            }
            if subset.face_start as u64 + subset.face_count as u64 > u32::MAX as u64 {
                return false;
            }
            if subset.face_start + subset.face_count > triangle_count {
                proof {
                    assert forall|q: int| #[trigger] subset_reached(*self, q) implies subset_sums_fit(*self, q) by {
                        if q > i {
                            assert(!subset_ok(*self, i as int));
                        }
                    }
                }
                return true;
            }
            i = i + 1;
        }
        true
    }

    /// Appends one model of a multi-model file: its vertices, its triangle
    /// indices moved past the vertices already present, and a subset with id
    /// `model_index` covering both. Counts are taken as `u32`, as the index
    /// buffer holds them.
    pub fn append_model(&mut self, model_index: usize, vertices: Vec<V>, model_indices: &[u32])
        requires
            forall|k: int|
                0 <= k < model_indices@.len() ==> #[verifier::truncate] (old(self).vertices@.len() as u32)
                    + #[trigger] model_indices@[k] <= u32::MAX,
        ensures
            final(self).vertices@ == old(self).vertices@ + vertices@,
            final(self).indices@ == old(self).indices@ + shifted_indices(
                model_indices@,
                #[verifier::truncate] (old(self).vertices@.len() as u32),
            ),
            final(self).subsets@ == old(self).subsets@.push(
                model_subset(model_index, old(self).vertices@.len(), old(self).indices@.len(), vertices@.len(), model_indices@.len()),
            ),
            final(self).name == old(self).name,
    {
        let vertex_start = #[verifier::truncate] (self.vertices.len() as u32);
        let face_start = #[verifier::truncate] ((self.indices.len() / 3) as u32);
        let vertex_count = #[verifier::truncate] (vertices.len() as u32);
        let face_count = #[verifier::truncate] ((model_indices.len() / 3) as u32);
        let id = #[verifier::truncate] (model_index as u32);
        let ghost added = vertices@;
        let mut vertices = vertices;
        self.vertices.append(&mut vertices);
        let ghost before = self.indices@;
        let ghost vertices_after = self.vertices@;
        let mut k: usize = 0;
        while k < model_indices.len()
            invariant
                k <= model_indices@.len(),
                forall|j: int|
                    0 <= j < model_indices@.len() ==> vertex_start + #[trigger] model_indices@[j]
                        <= u32::MAX,
                self.indices@ == before + shifted_indices(model_indices@.take(k as int), vertex_start),
                self.vertices@ == vertices_after,
                self.subsets@ == old(self).subsets@,
                self.name == old(self).name,
            decreases model_indices@.len() - k,
        {
            let index = model_indices[k];
            self.indices.push(vertex_start + index);
            assert(model_indices@.take(k + 1) =~= model_indices@.take(k as int).push(index));
            assert(shifted_indices(model_indices@.take(k + 1), vertex_start) =~= shifted_indices(
                model_indices@.take(k as int),
                vertex_start,
            ).push((vertex_start + index) as u32));
            k = k + 1;
        }
        assert(model_indices@.take(model_indices@.len() as int) =~= model_indices@);
        self.subsets.push(Subset::new(id, vertex_start, vertex_count, face_start, face_count));
    }

    /// Removes all vertices, indices and subsets, and the name.
    pub fn clear(&mut self)
        ensures
            final(self).vertices@.len() == 0,
            final(self).indices@.len() == 0,
            final(self).subsets@.len() == 0,
            final(self).name is None,
    {
        self.vertices.clear();
        self.indices.clear();
        self.subsets.clear();
        self.name = None;
    }
}

impl<V> Default for MeshData<V> {
    fn default() -> (m: Self)
        ensures
            m.vertices@.len() == 0,
            m.indices@.len() == 0,
            m.subsets@.len() == 0,
            m.name is None,
    {
        MeshData::new()
    }
}

} // verus!

//! Bookkeeping of the HNSW index.
//!
//! The graph itself belongs to the host. It knows points by number and cannot forget one. The
//! index keeps what the graph cannot: which memory a point stands for, and which memories were
//! deleted. A deleted memory is marked and left out of results; a memory inserted again gets a new
//! point, and its old one stands for nothing any more. A search asks the graph for as many more
//! neighbours as there are points of either sort, so that they do not crowd out live ones.

use vstd::prelude::*;
use vstd::set_lib::{lemma_int_range, lemma_len_subset, lemma_set_disjoint_lens, set_int_range};

use super::error::VectorIndexError;
use super::hit::{HitModel, SearchHit};
use crate::engine::memory::MemoryId;
use crate::engine::single::{
    clamp_unit, is_finite, is_finite_bits, is_nan, less, rank, unit_clamped,
};
use crate::engine::storage::StorageKey;
use crate::engine::storage::key::lemma_plain_key;
use crate::text::{concat2, has_prefix, same_text};

verus! {

/// Connections of a point in the graph.
pub const HNSW_MAX_NB_CONNECTION: usize = 16;

/// Layers of the graph.
pub const HNSW_MAX_LAYER: usize = 16;

/// Points the graph is laid out for.
pub const HNSW_MAX_ELEMENTS: usize = 100_000;

/// Candidates looked at when a point is inserted.
pub const HNSW_EF_CONSTRUCTION: usize = 200;

/// Candidates looked at in a search.
pub const HNSW_EF_SEARCH_PADDING: usize = 100;

/// Base name of the two files that the graph is dumped to.
pub const DUMP_BASENAME: &'static str = "loop_hnsw";

/// Key of the vectors in the dump of the graph.
pub fn key_hnsw_data() -> (k: StorageKey)
    ensures
        k@ == "vector_index/loop_hnsw.hnsw.data"@,
{
    proof {
        reveal_strlit("vector_index/loop_hnsw.hnsw.data");
        lemma_plain_key("vector_index/loop_hnsw.hnsw.data"@);
    }
    StorageKey::from_raw("vector_index/loop_hnsw.hnsw.data".to_owned())
}

/// Key of the edges in the dump of the graph.
pub fn key_hnsw_graph() -> (k: StorageKey)
    ensures
        k@ == "vector_index/loop_hnsw.hnsw.graph"@,
{
    proof {
        reveal_strlit("vector_index/loop_hnsw.hnsw.graph");
        lemma_plain_key("vector_index/loop_hnsw.hnsw.graph"@);
    }
    StorageKey::from_raw("vector_index/loop_hnsw.hnsw.graph".to_owned())
}

/// Key of what the index keeps beside the graph.
pub fn key_hnsw_meta() -> (k: StorageKey)
    ensures
        k@ == "vector_index/loop_hnsw_meta.json"@,
{
    proof {
        reveal_strlit("vector_index/loop_hnsw_meta.json");
        lemma_plain_key("vector_index/loop_hnsw_meta.json"@);
    }
    StorageKey::from_raw("vector_index/loop_hnsw_meta.json".to_owned())
}

/// Points and the memories they stand for.
pub type Points = Seq<(usize, Seq<char>)>;

/// The model of an index.
#[verifier::ext_equal]
pub struct IndexModel {
    /// Length of every vector.
    pub dimensions: usize,
    /// The number of the next point.
    pub next: usize,
    pub points: Points,
    pub tombstones: Set<Seq<char>>,
}

/// The memory that a point stands for.
pub open spec fn lookup(points: Points, pid: usize) -> Option<Seq<char>>
    decreases points.len(),
{
    if points.len() == 0 {
        None
    } else if points.last().0 == pid {
        Some(points.last().1)
    } else {
        lookup(points.drop_last(), pid)
    }
}

/// Whether some point stands for `id`.
pub open spec fn holds(points: Points, id: Seq<char>) -> bool {
    exists|i: int| 0 <= i < points.len() && (#[trigger] points[i]).1 == id
}

/// The points without the latest one that stands for `id`.
pub open spec fn without(points: Points, id: Seq<char>) -> Points
    decreases points.len(),
{
    if points.len() == 0 {
        points
    } else if points.last().1 == id {
        points.drop_last()
    } else {
        without(points.drop_last(), id).push(points.last())
    }
}

/// The points without the one numbered `pid`.
pub open spec fn strike(points: Points, pid: usize) -> Points
    decreases points.len(),
{
    if points.len() == 0 {
        points
    } else if points.last().0 == pid {
        points.drop_last()
    } else {
        strike(points.drop_last(), pid).push(points.last())
    }
}

/// The memory that a point gives in a search, if any.
pub open spec fn live(m: IndexModel, pid: usize) -> Option<Seq<char>> {
    match lookup(m.points, pid) {
        Some(id) => if m.tombstones.contains(id) {
            None
        } else {
            Some(id)
        },
        None => None,
    }
}

/// How many points give a memory in a search.
pub open spec fn live_count(points: Points, tombstones: Set<Seq<char>>) -> nat
    decreases points.len(),
{
    if points.len() == 0 {
        0
    } else if tombstones.contains(points.last().1) {
        live_count(points.drop_last(), tombstones)
    } else {
        live_count(points.drop_last(), tombstones) + 1
    }
}

/// How many entries have a number below the next one.
pub open spec fn below_count(points: Points, next: usize) -> nat
    decreases points.len(),
{
    if points.len() == 0 {
        0
    } else if points.last().0 < next {
        below_count(points.drop_last(), next) + 1
    } else {
        below_count(points.drop_last(), next)
    }
}

/// How many points the graph may hold: every number below the next one, and what entries there are
/// beyond.
pub open spec fn known_count(m: IndexModel) -> int {
    m.next + m.points.len() - below_count(m.points, m.next)
}

/// How many points of the graph give nothing in a search: those that were replaced, and those of
/// deleted memories.
pub open spec fn idle_count(m: IndexModel) -> int {
    known_count(m) - live_count(m.points, m.tombstones)
}

/// The first `k` live memories among the neighbours, with their similarities clamped.
pub open spec fn hits(m: IndexModel, neighbours: Seq<Neighbour>, k: nat) -> Seq<HitModel>
    decreases neighbours.len(),
{
    if neighbours.len() == 0 || k == 0 {
        seq![]
    } else {
        match live(m, neighbours[0].point_id) {
            Some(id) => seq![(id, unit_clamped(neighbours[0].similarity))] + hits(
                m,
                neighbours.skip(1),
                (k - 1) as nat,
            ),
            None => hits(m, neighbours.skip(1), k),
        }
    }
}

/// The index once `id` was inserted.
pub open spec fn inserted(m: IndexModel, id: Seq<char>) -> IndexModel {
    IndexModel {
        dimensions: m.dimensions,
        next: (m.next + 1) as usize,
        points: strike(without(m.points, id), m.next).push((m.next, id)),
        tombstones: m.tombstones.remove(id),
    }
}

/// The index once `id` was deleted.
pub open spec fn deleted(m: IndexModel, id: Seq<char>) -> IndexModel {
    if holds(m.points, id) {
        IndexModel { tombstones: m.tombstones.insert(id), ..m }
    } else {
        m
    }
}

/// An index of which nothing is known yet.
pub open spec fn empty_index(dimensions: usize) -> IndexModel {
    IndexModel { dimensions, next: 0, points: seq![], tombstones: Set::empty() }
}

/// No number stands twice.
pub open spec fn distinct_points(points: Points) -> bool {
    forall|i: int, j: int|
        0 <= i < j < points.len() ==> (#[trigger] points[i]).0 != (#[trigger] points[j]).0
}

/// Every number was handed out.
pub open spec fn handed_out(points: Points, next: usize) -> bool {
    forall|i: int| 0 <= i < points.len() ==> (#[trigger] points[i]).0 < next
}

/// Each memory has one point, the numbers are below the next one, and only memories with a point
/// are marked as deleted.
pub open spec fn consistent(m: IndexModel) -> bool {
    &&& distinct_points(m.points)
    &&& forall|i: int, j: int|
        0 <= i < j < m.points.len() ==> (#[trigger] m.points[i]).1 != (#[trigger] m.points[j]).1
    &&& handed_out(m.points, m.next)
    &&& forall|id: Seq<char>| #[trigger]
        m.tombstones.contains(id) ==> holds(m.points, id)
    &&& m.tombstones.finite()
}

pub open spec fn all_finite(vector: Seq<u32>) -> bool {
    forall|i: int| 0 <= i < vector.len() ==> is_finite(#[trigger] vector[i])
}

/// The models of a list of points.
pub open spec fn point_models(points: Seq<(usize, MemoryId)>) -> Points {
    points.map_values(|p: (usize, MemoryId)| (p.0, p.1@))
}

/// The texts of a list of ids.
pub open spec fn id_texts(ids: Seq<MemoryId>) -> Seq<Seq<char>> {
    ids.map_values(|id: MemoryId| id@)
}

/// The models of a list of hits.
pub open spec fn hit_models(hits: Seq<SearchHit>) -> Seq<HitModel> {
    hits.map_values(|h: SearchHit| h@)
}

/// A point that the graph found near the query, nearest first.
#[derive(Debug, Clone, Copy, PartialEq, Eq)]
pub struct Neighbour {
    pub point_id: usize,
    /// One minus the distance, not yet clamped.
    pub similarity: u32,
}

/// What is stored beside the dump of the graph.
#[derive(Debug, Clone, PartialEq, Eq)]
pub struct HnswMeta {
    pub dimensions: usize,
    pub next_point_id: usize,
    /// Each point with the memory it stands for; no number twice.
    pub id_map: Vec<(usize, MemoryId)>,
    /// The deleted memories, each once.
    pub tombstones: Vec<MemoryId>,
}

impl View for HnswMeta {
    type V = IndexModel;

    open spec fn view(&self) -> IndexModel {
        IndexModel {
            dimensions: self.dimensions,
            next: self.next_point_id,
            points: point_models(self.id_map@),
            tombstones: id_texts(self.tombstones@).to_set(),
        }
    }
}

impl HnswMeta {
    /// No number and no deleted memory stands twice.
    pub open spec fn wf(self) -> bool {
        &&& distinct_points(point_models(self.id_map@))
        &&& id_texts(self.tombstones@).no_duplicates()
    }
}

/// What loading yields.
pub open spec fn loaded(
    meta: Option<Result<IndexModel, Seq<char>>>,
    dimensions: usize,
    has_data: bool,
    has_graph: bool,
) -> Result<IndexModel, Seq<char>> {
    match meta {
        None => Ok(empty_index(dimensions)),
        Some(Err(e)) => Err("vector index internal: "@ + ("malformed hnsw meta: "@ + e)),
        Some(Ok(m)) => if m.dimensions != dimensions {
            Err(
                (VectorIndexError::DimensionMismatch {
                    provided: dimensions,
                    expected: m.dimensions,
                }).text(),
            )
        } else if !has_data {
            Err("vector index internal: "@ + "hnsw_data missing despite meta present"@)
        } else if !has_graph {
            Err("vector index internal: "@ + "hnsw_graph missing despite meta present"@)
        } else {
            Ok(m)
        },
    }
}

/// Model of the argument of `load`.
pub open spec fn meta_model(meta: Option<Result<HnswMeta, String>>) -> Option<
    Result<IndexModel, Seq<char>>,
> {
    match meta {
        None => None,
        Some(Err(e)) => Some(Err(e@)),
        Some(Ok(m)) => Some(Ok(m@)),
    }
}

/// The index: what each point stands for, and what was deleted.
#[derive(Debug)]
pub struct HnswVectorIndex {
    dimensions: usize,
    next_point_id: usize,
    points: Vec<(usize, MemoryId)>,
    tombstones: Vec<MemoryId>,
}

impl View for HnswVectorIndex {
    type V = IndexModel;

    closed spec fn view(&self) -> IndexModel {
        IndexModel {
            dimensions: self.dimensions,
            next: self.next_point_id,
            points: point_models(self.points@),
            tombstones: id_texts(self.tombstones@).to_set(),
        }
    }
}

proof fn lemma_lookup(points: Points, pid: usize, i: int)
    requires
        distinct_points(points),
        0 <= i < points.len(),
        points[i].0 == pid,
    ensures
        lookup(points, pid) == Some(points[i].1),
    decreases points.len(),
{
    if i < points.len() - 1 {
        assert(points.last().0 != pid);
        assert(points.drop_last()[i] == points[i]);
        assert(distinct_points(points.drop_last())) by {
            assert forall|a: int, b: int| 0 <= a < b < points.drop_last().len() implies (
            #[trigger] points.drop_last()[a]).0 != (#[trigger] points.drop_last()[b]).0 by {
                assert(points.drop_last()[a] == points[a] && points.drop_last()[b] == points[b]);
            }
        }
        lemma_lookup(points.drop_last(), pid, i);
    }
}

proof fn lemma_lookup_absent(points: Points, pid: usize)
    requires
        forall|i: int| 0 <= i < points.len() ==> (#[trigger] points[i]).0 != pid,
    ensures
        lookup(points, pid) is None,
    decreases points.len(),
{
    if points.len() > 0 {
        assert(points.last() == points[points.len() - 1]);
        assert forall|i: int| 0 <= i < points.drop_last().len() implies (
        #[trigger] points.drop_last()[i]).0 != pid by {
            assert(points.drop_last()[i] == points[i]);
        }
        lemma_lookup_absent(points.drop_last(), pid);
    }
}

proof fn lemma_lookup_witness(points: Points, pid: usize) -> (i: int)
    requires
        lookup(points, pid) is Some,
    ensures
        0 <= i < points.len(),
        points[i] == (pid, lookup(points, pid)->0),
    decreases points.len(),
{
    if points.last().0 == pid {
        points.len() - 1
    } else {
        let i = lemma_lookup_witness(points.drop_last(), pid);
        assert(points.drop_last()[i] == points[i]);
        i
    }
}

/// Removing the latest point of `id` is removing at its position.
proof fn lemma_without_at(points: Points, id: Seq<char>, i: int)
    requires
        0 <= i < points.len(),
        points[i].1 == id,
        forall|j: int| i < j < points.len() ==> (#[trigger] points[j]).1 != id,
    ensures
        without(points, id) == points.remove(i),
    decreases points.len(),
{
    if i == points.len() - 1 {
        assert(points.remove(i) =~= points.drop_last());
    } else {
        let rest = points.drop_last();
        assert(points.last() == points[points.len() - 1]);
        assert(rest[i] == points[i]);
        assert forall|j: int| i < j < rest.len() implies (#[trigger] rest[j]).1 != id by {
            assert(rest[j] == points[j]);
        }
        lemma_without_at(rest, id, i);
        assert(rest.remove(i).push(points.last()) =~= points.remove(i));
    }
}

proof fn lemma_without_absent(points: Points, id: Seq<char>)
    requires
        !holds(points, id),
    ensures
        without(points, id) == points,
    decreases points.len(),
{
    if points.len() > 0 {
        let rest = points.drop_last();
        assert(points[points.len() - 1] == points.last());
        if holds(rest, id) {
            let i = choose|i: int| 0 <= i < rest.len() && (#[trigger] rest[i]).1 == id;
            assert(points[i].1 == id);
        }
        lemma_without_absent(rest, id);
        assert(rest.push(points.last()) =~= points);
    }
}

proof fn lemma_strike_at(points: Points, pid: usize, i: int)
    requires
        0 <= i < points.len(),
        points[i].0 == pid,
        forall|j: int| i < j < points.len() ==> (#[trigger] points[j]).0 != pid,
    ensures
        strike(points, pid) == points.remove(i),
    decreases points.len(),
{
    if i == points.len() - 1 {
        assert(points.remove(i) =~= points.drop_last());
    } else {
        let rest = points.drop_last();
        assert(points.last() == points[points.len() - 1]);
        assert(rest[i] == points[i]);
        assert forall|j: int| i < j < rest.len() implies (#[trigger] rest[j]).0 != pid by {
            assert(rest[j] == points[j]);
        }
        lemma_strike_at(rest, pid, i);
        assert(rest.remove(i).push(points.last()) =~= points.remove(i));
    }
}

proof fn lemma_strike_absent(points: Points, pid: usize)
    requires
        forall|i: int| 0 <= i < points.len() ==> (#[trigger] points[i]).0 != pid,
    ensures
        strike(points, pid) == points,
    decreases points.len(),
{
    if points.len() > 0 {
        let rest = points.drop_last();
        assert(points[points.len() - 1] == points.last());
        assert forall|i: int| 0 <= i < rest.len() implies (#[trigger] rest[i]).0 != pid by {
            assert(rest[i] == points[i]);
        }
        lemma_strike_absent(rest, pid);
        assert(rest.push(points.last()) =~= points);
    }
}

impl HnswVectorIndex {
    /// No number and no deleted memory stands twice.
    pub closed spec fn wf(self) -> bool {
        &&& distinct_points(point_models(self.points@))
        &&& id_texts(self.tombstones@).no_duplicates()
    }

    /// An empty index for vectors of the given length.
    pub fn new(dimensions: usize) -> (index: HnswVectorIndex)
        ensures
            index.wf(),
            index@ == empty_index(dimensions),
    {
        let index = HnswVectorIndex {
            dimensions,
            next_point_id: 0,
            points: Vec::new(),
            tombstones: Vec::new(),
        };
        proof {
            assert(index@ =~= empty_index(dimensions));
        }
        index
    }

    /// Takes up what was stored. With nothing stored the index is new; what `meta` holds is the
    /// parsed record or why it could not be parsed.
    pub fn load(
        meta: Option<Result<HnswMeta, String>>,
        dimensions: usize,
        has_data: bool,
        has_graph: bool,
    ) -> (r: Result<HnswVectorIndex, VectorIndexError>)
        requires
            meta matches Some(Ok(m)) ==> m.wf(),
        ensures
            match r {
                Ok(index) => index.wf() && loaded(
                    meta_model(meta),
                    dimensions,
                    has_data,
                    has_graph,
                ) == Ok::<IndexModel, Seq<char>>(index@),
                Err(e) => loaded(meta_model(meta), dimensions, has_data, has_graph) == Err::<
                    IndexModel,
                    Seq<char>,
                >(e.text()),
            },
    {
        let meta = match meta {
            None => {
                return Ok(HnswVectorIndex::new(dimensions));
            },
            Some(Err(e)) => {
                return Err(
                    VectorIndexError::Internal(concat2("malformed hnsw meta: ", e.as_str())),
                );
            },
            Some(Ok(meta)) => meta,
        };
        if meta.dimensions != dimensions {
            return Err(
                VectorIndexError::DimensionMismatch {
                    provided: dimensions,
                    expected: meta.dimensions,
                },
            );
        }
        if !has_data {
            return Err(
                VectorIndexError::Internal("hnsw_data missing despite meta present".to_owned()),
            );
        }
        if !has_graph {
            return Err(
                VectorIndexError::Internal("hnsw_graph missing despite meta present".to_owned()),
            );
        }
        Ok(
            HnswVectorIndex {
                dimensions: meta.dimensions,
                next_point_id: meta.next_point_id,
                points: meta.id_map,
                tombstones: meta.tombstones,
            },
        )
    }

    /// What is to be stored beside the dump of the graph.
    pub fn snapshot(&self) -> (meta: HnswMeta)
        requires
            self.wf(),
        ensures
            meta.wf(),
            meta@ == self@,
    {
        let mut id_map: Vec<(usize, MemoryId)> = Vec::new();
        let mut i: usize = 0;
        while i < self.points.len()
            invariant
                i <= self.points.len(),
                id_map@ == self.points@.take(i as int),
            decreases self.points.len() - i,
        {
            id_map.push((self.points[i].0, self.points[i].1.duplicate()));
            proof {
                assert(self.points@.take(i + 1) =~= self.points@.take(i as int).push(
                    self.points@[i as int],
                ));
            }
            i += 1;
        }
        let mut tombstones: Vec<MemoryId> = Vec::new();
        let mut j: usize = 0;
        while j < self.tombstones.len()
            invariant
                j <= self.tombstones.len(),
                tombstones@ == self.tombstones@.take(j as int),
            decreases self.tombstones.len() - j,
        {
            tombstones.push(self.tombstones[j].duplicate());
            proof {
                assert(self.tombstones@.take(j + 1) =~= self.tombstones@.take(j as int).push(
                    self.tombstones@[j as int],
                ));
            }
            j += 1;
        }
        proof {
            assert(self.points@.take(self.points@.len() as int) =~= self.points@);
            assert(self.tombstones@.take(self.tombstones@.len() as int) =~= self.tombstones@);
        }
        HnswMeta {
            dimensions: self.dimensions,
            next_point_id: self.next_point_id,
            id_map,
            tombstones,
        }
    }

    /// Length of the vectors.
    pub fn dimensions(&self) -> (n: usize)
        ensures
            n == self@.dimensions,
    {
        self.dimensions
    }

    /// Position of the latest point that stands for `id`.
    fn position(&self, id: &MemoryId) -> (r: Option<usize>)
        ensures
            match r {
                Some(i) => {
                    &&& i < self.points@.len()
                    &&& self.points@[i as int].1@ == id@
                    &&& forall|j: int|
                        i < j < self.points@.len() ==> (#[trigger] self.points@[j]).1@ != id@
                },
                None => forall|j: int|
                    0 <= j < self.points@.len() ==> (#[trigger] self.points@[j]).1@ != id@,
            },
    {
        let mut i: usize = self.points.len();
        while i > 0
            invariant
                i <= self.points.len(),
                forall|j: int|
                    i <= j < self.points@.len() ==> (#[trigger] self.points@[j]).1@ != id@,
            decreases i,
        {
            if same_text(self.points[i - 1].1.as_str(), id.as_str()) {
                return Some(i - 1);
            }
            i -= 1;
        }
        None
    }

    /// Position of the entry numbered `pid`.
    fn numbered(&self, pid: usize) -> (r: Option<usize>)
        ensures
            match r {
                Some(i) => {
                    &&& i < self.points@.len()
                    &&& self.points@[i as int].0 == pid
                    &&& forall|j: int|
                        i < j < self.points@.len() ==> (#[trigger] self.points@[j]).0 != pid
                },
                None => forall|j: int|
                    0 <= j < self.points@.len() ==> (#[trigger] self.points@[j]).0 != pid,
            },
    {
        let mut i: usize = self.points.len();
        while i > 0
            invariant
                i <= self.points.len(),
                forall|j: int|
                    i <= j < self.points@.len() ==> (#[trigger] self.points@[j]).0 != pid,
            decreases i,
        {
            if self.points[i - 1].0 == pid {
                return Some(i - 1);
            }
            i -= 1;
        }
        None
    }

    /// Position of the mark of `id`.
    fn tombstone(&self, id: &MemoryId) -> (r: Option<usize>)
        ensures
            match r {
                Some(i) => i < self.tombstones@.len() && self.tombstones@[i as int]@ == id@
                    && self@.tombstones.contains(id@),
                None => !self@.tombstones.contains(id@),
            },
    {
        let ghost texts = id_texts(self.tombstones@);
        let mut i: usize = 0;
        while i < self.tombstones.len()
            invariant
                i <= self.tombstones.len(),
                texts == id_texts(self.tombstones@),
                forall|j: int| 0 <= j < i ==> (#[trigger] texts[j]) != id@,
            decreases self.tombstones.len() - i,
        {
            if same_text(self.tombstones[i].as_str(), id.as_str()) {
                proof {
                    assert(texts[i as int] == id@);
                    assert(texts.contains(id@));
                }
                return Some(i);
            }
            i += 1;
        }
        None
    }

    /// Fails where the vector cannot be held against this index.
    fn check_vector(&self, vector: &[u32], complaint: &str) -> (r: Result<(), VectorIndexError>)
        ensures
            match r {
                Ok(_) => vector@.len() == self@.dimensions && all_finite(vector@),
                Err(e) => if vector@.len() != self@.dimensions {
                    e == (VectorIndexError::DimensionMismatch {
                        provided: vector@.len() as usize,
                        expected: self@.dimensions,
                    })
                } else {
                    !all_finite(vector@) && (e matches VectorIndexError::InvalidVector(m) && m@
                        == complaint@)
                },
            },
    {
        if vector.len() != self.dimensions {
            return Err(
                VectorIndexError::DimensionMismatch {
                    provided: vector.len(),
                    expected: self.dimensions,
                },
            );
        }
        let mut i: usize = 0;
        while i < vector.len()
            invariant
                i <= vector.len(),
                vector@.len() == self@.dimensions,
                forall|j: int| 0 <= j < i ==> is_finite(#[trigger] vector@[j]),
            decreases vector.len() - i,
        {
            if !is_finite_bits(vector[i]) {
                return Err(VectorIndexError::InvalidVector(complaint.to_owned()));
            }
            i += 1;
        }
        Ok(())
    }

    /// Enters `id`, in place of what stood for it, and returns the number under which the graph
    /// takes the vector.
    #[verifier::spinoff_prover]
    #[verifier::rlimit(40)]
    pub fn insert(&mut self, id: &MemoryId, vector: &[u32]) -> (r: Result<usize, VectorIndexError>)
        requires
            old(self).wf(),
            old(self)@.next < usize::MAX,
        ensures
            final(self).wf(),
            match r {
                Ok(pid) => {
                    &&& vector@.len() == old(self)@.dimensions && all_finite(vector@)
                    &&& pid == old(self)@.next
                    &&& final(self)@ == inserted(old(self)@, id@)
                },
                Err(e) => {
                    &&& *final(self) == *old(self)
                    &&& if vector@.len() != old(self)@.dimensions {
                        e == (VectorIndexError::DimensionMismatch {
                            provided: vector@.len() as usize,
                            expected: old(self)@.dimensions,
                        })
                    } else {
                        !all_finite(vector@) && (e matches VectorIndexError::InvalidVector(m) && m@
                            == "vector contains NaN or Inf"@)
                    }
                },
            },
    {
        if let Err(e) = self.check_vector(vector, "vector contains NaN or Inf") {
            return Err(e);
        }
        let ghost before = self@;
        let position = self.position(id);
        let mark = self.tombstone(id);
        let pid = self.next_point_id;
        if let Some(i) = position {
            let _ = self.points.remove(i);
            proof {
                assert forall|j: int| i < j < before.points.len() implies (
                #[trigger] before.points[j]).1 != id@ by {
                    assert(old(self).points@[j].1@ != id@);
                }
                lemma_without_at(before.points, id@, i as int);
                assert(point_models(self.points@) =~= before.points.remove(i as int));
            }
        } else {
            proof {
                assert(!holds(before.points, id@)) by {
                    assert forall|j: int| 0 <= j < before.points.len() implies (
                    #[trigger] before.points[j]).1 != id@ by {
                        assert(old(self).points@[j].1@ != id@);
                    }
                }
                lemma_without_absent(before.points, id@);
            }
        }
        let ghost left = self.points@;
        proof {
            assert(point_models(left) == without(before.points, id@));
            assert(distinct_points(point_models(left)));
        }
        if let Some(i) = self.numbered(pid) {
            let _ = self.points.remove(i);
            proof {
                assert forall|j: int| i < j < left.len() implies (
                #[trigger] point_models(left)[j]).0 != pid by {
                    assert(left[j].0 != pid);
                }
                lemma_strike_at(point_models(left), pid, i as int);
                assert(point_models(self.points@) =~= point_models(left).remove(i as int));
                assert forall|j: int| 0 <= j < self.points@.len() implies (
                #[trigger] self.points@[j]).0 != pid by {
                    let k = if j < i {
                        j
                    } else {
                        j + 1
                    };
                    assert(self.points@[j] == left[k]);
                    assert(point_models(left)[k].0 != point_models(left)[i as int].0);
                }
            }
        } else {
            proof {
                assert forall|j: int| 0 <= j < left.len() implies (
                #[trigger] point_models(left)[j]).0 != pid by {
                    assert(left[j].0 != pid);
                }
                lemma_strike_absent(point_models(left), pid);
            }
        }
        let ghost kept = self.points@;
        proof {
            assert(point_models(kept) == strike(without(before.points, id@), pid));
            assert(distinct_points(point_models(kept)));
        }
        self.points.push((pid, id.duplicate()));
        proof {
            assert(point_models(self.points@) =~= point_models(kept).push((pid, id@)));
            assert(distinct_points(point_models(self.points@))) by {
                assert forall|a: int, b: int| 0 <= a < b < self@.points.len() implies (
                #[trigger] self@.points[a]).0 != (#[trigger] self@.points[b]).0 by {
                    assert(point_models(kept)[a].0 == kept[a].0);
                    if b < kept.len() {
                        assert(point_models(kept)[a].0 != point_models(kept)[b].0);
                    }
                }
            }
        }
        if let Some(i) = mark {
            let ghost texts = id_texts(self.tombstones@);
            let _ = self.tombstones.remove(i);
            proof {
                let left = id_texts(self.tombstones@);
                assert(left =~= texts.remove(i as int));
                assert(texts[i as int] == id@);
                assert forall|t: Seq<char>| #[trigger]
                    left.to_set().contains(t) == texts.to_set().remove(id@).contains(t) by {
                    if left.contains(t) {
                        let j = choose|j: int| 0 <= j < left.len() && left[j] == t;
                        if j < i {
                            assert(texts[j] == t);
                        } else {
                            assert(texts[j + 1] == t);
                        }
                    }
                    if texts.contains(t) && t != id@ {
                        let j = choose|j: int| 0 <= j < texts.len() && texts[j] == t;
                        if j < i {
                            assert(left[j] == t);
                        } else {
                            assert(left[j - 1] == t);
                        }
                    }
                }
                assert(left.to_set() =~= texts.to_set().remove(id@));
            }
        } else {
            proof {
                assert(before.tombstones.remove(id@) =~= before.tombstones);
            }
        }
        self.next_point_id = self.next_point_id + 1;
        proof {
            assert(self@ =~= inserted(before, id@));
        }
        Ok(pid)
    }

    /// How many entries have a number below the next one, and how many are of deleted memories.
    fn count_entries(&self) -> (r: (usize, usize))
        requires
            self.wf(),
        ensures
            r.0 == below_count(self@.points, self@.next),
            r.0 <= self@.next,
            r.1 == self@.points.len() - live_count(self@.points, self@.tombstones),
    {
        let ghost m = self@;
        let mut below: usize = 0;
        let mut dead: usize = 0;
        let mut i: usize = 0;
        while i < self.points.len()
            invariant
                i <= self.points.len(),
                m == self@,
                below <= i,
                dead <= i,
                below == below_count(m.points.take(i as int), m.next),
                dead == i - live_count(m.points.take(i as int), m.tombstones),
            decreases self.points.len() - i,
        {
            proof {
                assert(m.points.take(i + 1).drop_last() =~= m.points.take(i as int));
                assert(m.points.take(i + 1).last() == m.points[i as int]);
            }
            if self.points[i].0 < self.next_point_id {
                below += 1;
            }
            if self.tombstone(&self.points[i].1).is_some() {
                dead += 1;
            }
            i += 1;
        }
        proof {
            assert(m.points.take(m.points.len() as int) =~= m.points);
            lemma_known_numbers(m);
        }
        (below, dead)
    }

    /// How many neighbours to ask the graph for, so that `k` are left when those that stand for
    /// nothing live are taken out.
    pub fn search_width(&self, query: &[u32], k: usize) -> (r: Result<usize, VectorIndexError>)
        requires
            self.wf(),
        ensures
            match r {
                Ok(n) => {
                    &&& query@.len() == self@.dimensions && all_finite(query@)
                    &&& n == if k + idle_count(self@) > usize::MAX {
                        usize::MAX as int
                    } else {
                        k + idle_count(self@)
                    }
                    &&& handed_out(self@.points, self@.next) ==> idle_count(self@) == self@.next
                        - live_count(self@.points, self@.tombstones)
                },
                Err(e) => if query@.len() != self@.dimensions {
                    e == (VectorIndexError::DimensionMismatch {
                        provided: query@.len() as usize,
                        expected: self@.dimensions,
                    })
                } else {
                    !all_finite(query@) && (e matches VectorIndexError::InvalidVector(m) && m@
                        == "query contains NaN or Inf"@)
                },
            },
    {
        if let Err(e) = self.check_vector(query, "query contains NaN or Inf") {
            return Err(e);
        }
        let (below, dead) = self.count_entries();
        proof {
            if handed_out(self@.points, self@.next) {
                lemma_all_below(self@.points, self@.next);
            }
        }
        Ok(k.saturating_add(self.next_point_id - below).saturating_add(dead))
    }

    /// The memory that a point gives in a search.
    fn resolve(&self, pid: usize) -> (r: Option<&MemoryId>)
        requires
            self.wf(),
        ensures
            match r {
                Some(id) => live(self@, pid) == Some(id@),
                None => live(self@, pid) is None,
            },
    {
        let mut i: usize = 0;
        while i < self.points.len()
            invariant
                self.wf(),
                i <= self.points.len(),
                forall|j: int| 0 <= j < i ==> (#[trigger] self.points@[j]).0 != pid,
            decreases self.points.len() - i,
        {
            if self.points[i].0 == pid {
                proof {
                    lemma_lookup(self@.points, pid, i as int);
                }
                return if self.tombstone(&self.points[i].1).is_some() {
                    None
                } else {
                    Some(&self.points[i].1)
                };
            }
            i += 1;
        }
        proof {
            assert forall|j: int| 0 <= j < self@.points.len() implies (
            #[trigger] self@.points[j]).0 != pid by {
                assert(self.points@[j].0 != pid);
            }
            lemma_lookup_absent(self@.points, pid);
        }
        None
    }

    /// The hits among the neighbours that the graph found: at most `k`, in their order.
    pub fn search(&self, neighbours: &Vec<Neighbour>, k: usize) -> (out: Vec<SearchHit>)
        requires
            self.wf(),
        ensures
            hit_models(out@) == hits(self@, neighbours@, k as nat),
    {
        let ghost all = hits(self@, neighbours@, k as nat);
        let mut out: Vec<SearchHit> = Vec::new();
        let mut i: usize = 0;
        proof {
            assert(neighbours@.skip(0) =~= neighbours@);
            assert(hit_models(out@) + all =~= all);
        }
        while i < neighbours.len() && out.len() < k
            invariant
                self.wf(),
                i <= neighbours.len(),
                out.len() <= k,
                hit_models(out@) + hits(
                    self@,
                    neighbours@.skip(i as int),
                    (k - out.len()) as nat,
                ) == all,
            decreases neighbours.len() - i,
        {
            let ghost rest = neighbours@.skip(i as int);
            let ghost before = hit_models(out@);
            let ghost left = (k - out.len()) as nat;
            let n = neighbours[i];
            proof {
                assert(rest[0] == n);
                assert(rest.skip(1) =~= neighbours@.skip(i + 1));
            }
            if let Some(id) = self.resolve(n.point_id) {
                let hit = SearchHit::new(id.duplicate(), clamp_unit(n.similarity));
                let ghost h = hit@;
                out.push(hit);
                proof {
                    assert(hit_models(out@) =~= before.push(h));
                    assert(before + hits(self@, rest, left) =~= before.push(h) + hits(
                        self@,
                        rest.skip(1),
                        (left - 1) as nat,
                    ));
                }
            }
            i += 1;
        }
        proof {
            let end = hits(self@, neighbours@.skip(i as int), (k - out.len()) as nat);
            assert(end.len() == 0);
            assert(hit_models(out@) + end =~= hit_models(out@));
        }
        out
    }

    /// Marks `id` as deleted. Deleting what is not there does nothing.
    pub fn delete(&mut self, id: &MemoryId)
        requires
            old(self).wf(),
        ensures
            final(self).wf(),
            final(self)@ == deleted(old(self)@, id@),
    {
        let position = self.position(id);
        let mark = self.tombstone(id);
        if let Some(i) = position {
            proof {
                assert(self@.points[i as int].1 == id@);
                assert(holds(self@.points, id@));
            }
            if mark.is_none() {
                let ghost texts = id_texts(self.tombstones@);
                self.tombstones.push(id.duplicate());
                proof {
                    let now = id_texts(self.tombstones@);
                    assert(now =~= texts.push(id@));
                    assert forall|t: Seq<char>| #[trigger]
                        now.to_set().contains(t) == texts.to_set().insert(id@).contains(t) by {
                        if texts.contains(t) {
                            let j = choose|j: int| 0 <= j < texts.len() && texts[j] == t;
                            assert(now[j] == t);
                        }
                        assert(now[texts.len() as int] == id@);
                    }
                    assert(now.to_set() =~= texts.to_set().insert(id@));
                    assert(now.no_duplicates()) by {
                        assert(!texts.contains(id@));
                    }
                }
            } else {
                proof {
                    assert(self@.tombstones.insert(id@) =~= self@.tombstones);
                }
            }
        } else {
            proof {
                assert forall|j: int| 0 <= j < self@.points.len() implies (
                #[trigger] self@.points[j]).1 != id@ by {
                    assert(self.points@[j].1@ != id@);
                }
            }
        }
        proof {
            assert(self@ =~= deleted(old(self)@, id@));
        }
    }
}

// ---- Laws --------------------------------------------------------------------

/// What is removed is one point, and every other one is kept.
proof fn lemma_without(m: IndexModel, id: Seq<char>)
    requires
        consistent(m),
    ensures
        !holds(without(m.points, id), id),
        forall|i: int|
            0 <= i < without(m.points, id).len() ==> #[trigger] m.points.contains(
                without(m.points, id)[i],
            ),
        forall|i: int|
            0 <= i < m.points.len() && (#[trigger] m.points[i]).1 != id ==> without(
                m.points,
                id,
            ).contains(m.points[i]),
        distinct_points(without(m.points, id)),
        forall|i: int, j: int|
            0 <= i < j < without(m.points, id).len() ==> (#[trigger] without(m.points, id)[i]).1
                != (#[trigger] without(m.points, id)[j]).1,
{
    let w = without(m.points, id);
    if holds(m.points, id) {
        let p = choose|i: int| 0 <= i < m.points.len() && (#[trigger] m.points[i]).1 == id;
        lemma_without_at(m.points, id, p);
        assert forall|i: int| 0 <= i < w.len() implies (#[trigger] w[i]).1 != id by {
            if i < p {
                assert(w[i] == m.points[i]);
            } else {
                assert(w[i] == m.points[i + 1]);
            }
        }
        assert forall|i: int| 0 <= i < w.len() implies #[trigger] m.points.contains(w[i]) by {
            if i < p {
                assert(w[i] == m.points[i]);
            } else {
                assert(w[i] == m.points[i + 1]);
            }
        }
        assert forall|i: int|
            0 <= i < m.points.len() && (#[trigger] m.points[i]).1 != id implies w.contains(
            m.points[i],
        ) by {
            if i < p {
                assert(w[i] == m.points[i]);
            } else {
                assert(w[i - 1] == m.points[i]);
            }
        }
    } else {
        lemma_without_absent(m.points, id);
    }
}

/// The number of a new point is in no entry yet.
proof fn lemma_nothing_struck(m: IndexModel, id: Seq<char>)
    requires
        consistent(m),
    ensures
        strike(without(m.points, id), m.next) == without(m.points, id),
{
    lemma_without(m, id);
    let w = without(m.points, id);
    assert forall|i: int| 0 <= i < w.len() implies (#[trigger] w[i]).0 != m.next by {
        assert(m.points.contains(w[i]));
    }
    lemma_strike_absent(w, m.next);
}

/// An index without points is consistent, and inserting and deleting keep it so.
pub proof fn law_index_stays_consistent(m: IndexModel, id: Seq<char>, dimensions: usize)
    requires
        consistent(m),
        m.next < usize::MAX,
    ensures
        consistent(empty_index(dimensions)),
        consistent(inserted(m, id)),
        consistent(deleted(m, id)),
{
    lemma_without(m, id);
    lemma_nothing_struck(m, id);
    let w = without(m.points, id);
    let n = inserted(m, id);
    assert forall|i: int| 0 <= i < w.len() implies (#[trigger] w[i]).0 < m.next by {
        assert(m.points.contains(w[i]));
    }
    assert forall|i: int, j: int| 0 <= i < j < n.points.len() implies (#[trigger] n.points[i]).1
        != (#[trigger] n.points[j]).1 by {
        assert(n.points[i] == w[i]);
        if j < w.len() {
            assert(n.points[j] == w[j]);
        }
    }
    assert forall|i: int, j: int| 0 <= i < j < n.points.len() implies (#[trigger] n.points[i]).0
        != (#[trigger] n.points[j]).0 by {
        assert(n.points[i] == w[i]);
        if j < w.len() {
            assert(n.points[j] == w[j]);
        }
    }
    assert forall|t: Seq<char>| #[trigger] n.tombstones.contains(t) implies holds(n.points, t) by {
        assert(m.tombstones.contains(t));
        let i = choose|i: int| 0 <= i < m.points.len() && (#[trigger] m.points[i]).1 == t;
        assert(w.contains(m.points[i]));
        let j = choose|j: int| 0 <= j < w.len() && w[j] == m.points[i];
        assert(n.points[j].1 == t);
    }
}

/// An inserted memory is found under its new point, deleted before or not.
pub proof fn law_inserted_memory_is_found(m: IndexModel, id: Seq<char>)
    ensures
        live(inserted(m, id), m.next) == Some(id),
{
    assert(inserted(m, id).points.last() == (m.next, id));
}

/// A deleted memory is in no result, whatever the graph finds.
pub proof fn law_deleted_memory_is_not_found(
    m: IndexModel,
    id: Seq<char>,
    neighbours: Seq<Neighbour>,
    k: nat,
)
    ensures
        forall|i: int|
            0 <= i < hits(deleted(m, id), neighbours, k).len() ==> (
            #[trigger] hits(deleted(m, id), neighbours, k)[i]).0 != id,
    decreases neighbours.len(),
{
    let d = deleted(m, id);
    if neighbours.len() > 0 && k > 0 {
        let pid = neighbours[0].point_id;
        law_deleted_memory_is_not_found(m, id, neighbours.skip(1), k);
        law_deleted_memory_is_not_found(m, id, neighbours.skip(1), (k - 1) as nat);
        if live(d, pid) == Some(id) {
            let i = lemma_lookup_witness(d.points, pid);
            assert(m.points[i].1 == id);
            assert(holds(m.points, id));
        }
        if live(d, pid) is Some {
            let tail = hits(d, neighbours.skip(1), (k - 1) as nat);
            assert forall|i: int| 0 <= i < hits(d, neighbours, k).len() implies (
            #[trigger] hits(d, neighbours, k)[i]).0 != id by {
                if i > 0 {
                    assert(hits(d, neighbours, k)[i] == tail[i - 1]);
                }
            }
        } else {
            assert(hits(d, neighbours, k) == hits(d, neighbours.skip(1), k));
        }
    }
}

/// The point that stood for a memory before it was inserted again stands for nothing.
pub proof fn law_replaced_point_is_gone(m: IndexModel, id: Seq<char>, pid: usize)
    requires
        consistent(m),
        lookup(m.points, pid) == Some(id),
    ensures
        live(inserted(m, id), pid) is None,
{
    let i = lemma_lookup_witness(m.points, pid);
    assert(m.points[i] == (pid, id));
    assert(pid < m.next);
    lemma_without(m, id);
    lemma_nothing_struck(m, id);
    let n = inserted(m, id);
    assert(n.points.drop_last() =~= without(m.points, id));
    if lookup(n.points, pid) is Some {
        assert(lookup(n.points, pid) == lookup(without(m.points, id), pid));
        let j = lemma_lookup_witness(without(m.points, id), pid);
        assert(m.points.contains(without(m.points, id)[j]));
        let l = choose|l: int| 0 <= l < m.points.len() && m.points[l] == without(m.points, id)[j];
        assert(m.points[l].0 == m.points[i].0);
        assert(l == i);
        assert(without(m.points, id)[j].1 == id);
        assert(holds(without(m.points, id), id));
    }
}

/// A result holds live memories only, at most `k` of them.
pub proof fn law_hits_are_live(m: IndexModel, neighbours: Seq<Neighbour>, k: nat)
    ensures
        hits(m, neighbours, k).len() <= k,
        forall|i: int|
            0 <= i < hits(m, neighbours, k).len() ==> holds(
                m.points,
                (#[trigger] hits(m, neighbours, k)[i]).0,
            ) && !m.tombstones.contains(hits(m, neighbours, k)[i].0),
    decreases neighbours.len(),
{
    if neighbours.len() > 0 && k > 0 {
        law_hits_are_live(m, neighbours.skip(1), k);
        law_hits_are_live(m, neighbours.skip(1), (k - 1) as nat);
        let pid = neighbours[0].point_id;
        if live(m, pid) is Some {
            let i = lemma_lookup_witness(m.points, pid);
            assert(m.points[i].1 == live(m, pid)->0);
        }
    }
}

/// Neighbours in descending order of similarity.
pub open spec fn descending(neighbours: Seq<Neighbour>) -> bool {
    &&& forall|i: int| 0 <= i < neighbours.len() ==> !is_nan((#[trigger] neighbours[i]).similarity)
    &&& forall|i: int, j: int|
        0 <= i < j < neighbours.len() ==> !less(
            (#[trigger] neighbours[i]).similarity,
            (#[trigger] neighbours[j]).similarity,
        )
}

proof fn lemma_hits_bounded(m: IndexModel, neighbours: Seq<Neighbour>, k: nat, bound: u32)
    requires
        !is_nan(bound),
        forall|i: int|
            0 <= i < neighbours.len() ==> !is_nan((#[trigger] neighbours[i]).similarity)
                && rank(neighbours[i].similarity) <= rank(bound),
    ensures
        forall|i: int|
            0 <= i < hits(m, neighbours, k).len() ==> rank((#[trigger] hits(m, neighbours, k)[i]).1)
                <= rank(unit_clamped(bound)),
    decreases neighbours.len(),
{
    if neighbours.len() > 0 && k > 0 {
        assert(rank(neighbours[0].similarity) <= rank(bound));
        let rest = neighbours.skip(1);
        assert forall|i: int| 0 <= i < rest.len() implies !is_nan((#[trigger] rest[i]).similarity)
            && rank(rest[i].similarity) <= rank(bound) by {
            assert(rest[i] == neighbours[i + 1]);
        }
        lemma_hits_bounded(m, rest, k, bound);
        lemma_hits_bounded(m, rest, (k - 1) as nat, bound);
        if live(m, neighbours[0].point_id) is Some {
            let tail = hits(m, rest, (k - 1) as nat);
            assert forall|i: int| 0 <= i < hits(m, neighbours, k).len() implies rank(
                (#[trigger] hits(m, neighbours, k)[i]).1,
            ) <= rank(unit_clamped(bound)) by {
                if i > 0 {
                    assert(hits(m, neighbours, k)[i] == tail[i - 1]);
                }
            }
        } else {
            assert(hits(m, neighbours, k) == hits(m, rest, k));
        }
    }
}

/// The best hit comes first where the graph gives the nearest neighbour first.
pub proof fn law_hits_are_descending(m: IndexModel, neighbours: Seq<Neighbour>, k: nat)
    requires
        descending(neighbours),
    ensures
        forall|i: int, j: int|
            0 <= i < j < hits(m, neighbours, k).len() ==> !less(
                (#[trigger] hits(m, neighbours, k)[i]).1,
                (#[trigger] hits(m, neighbours, k)[j]).1,
            ),
    decreases neighbours.len(),
{
    if neighbours.len() > 0 && k > 0 {
        let rest = neighbours.skip(1);
        assert(descending(rest)) by {
            assert forall|i: int| 0 <= i < rest.len() implies !is_nan(
                (#[trigger] rest[i]).similarity,
            ) by {
                assert(rest[i] == neighbours[i + 1]);
            }
            assert forall|i: int, j: int| 0 <= i < j < rest.len() implies !less(
                (#[trigger] rest[i]).similarity,
                (#[trigger] rest[j]).similarity,
            ) by {
                assert(rest[i] == neighbours[i + 1] && rest[j] == neighbours[j + 1]);
            }
        }
        law_hits_are_descending(m, rest, k);
        law_hits_are_descending(m, rest, (k - 1) as nat);
        assert forall|i: int| 0 <= i < rest.len() implies !is_nan((#[trigger] rest[i]).similarity)
            && rank(rest[i].similarity) <= rank(neighbours[0].similarity) by {
            assert(rest[i] == neighbours[i + 1]);
            assert(!less(neighbours[0].similarity, neighbours[i + 1].similarity));
        }
        lemma_hits_bounded(m, rest, (k - 1) as nat, neighbours[0].similarity);
        if live(m, neighbours[0].point_id) is Some {
            let whole = hits(m, neighbours, k);
            let tail = hits(m, rest, (k - 1) as nat);
            assert forall|i: int, j: int| 0 <= i < j < whole.len() implies !less(
                (#[trigger] whole[i]).1,
                (#[trigger] whole[j]).1,
            ) by {
                assert(whole[j] == tail[j - 1]);
                if i > 0 {
                    assert(whole[i] == tail[i - 1]);
                }
            }
        } else {
            assert(hits(m, neighbours, k) == hits(m, rest, k));
        }
    }
}

/// The numbers of the live points.
spec fn live_numbers(points: Points, tombstones: Set<Seq<char>>) -> Set<int>
    decreases points.len(),
{
    if points.len() == 0 {
        Set::empty()
    } else if tombstones.contains(points.last().1) {
        live_numbers(points.drop_last(), tombstones)
    } else {
        live_numbers(points.drop_last(), tombstones).insert(points.last().0 as int)
    }
}

proof fn lemma_live_number(points: Points, tombstones: Set<Seq<char>>, p: int)
    ensures
        live_numbers(points, tombstones).contains(p) ==> exists|i: int|
            0 <= i < points.len() && (#[trigger] points[i]).0 == p && !tombstones.contains(
                points[i].1,
            ),
    decreases points.len(),
{
    if live_numbers(points, tombstones).contains(p) {
        let rest = points.drop_last();
        lemma_live_number(rest, tombstones, p);
        if live_numbers(rest, tombstones).contains(p) {
            let i = choose|i: int|
                0 <= i < rest.len() && (#[trigger] rest[i]).0 == p && !tombstones.contains(rest[i].1);
            assert(points[i] == rest[i]);
        } else {
            assert(points[points.len() - 1] == points.last());
        }
    }
}

proof fn lemma_live_numbers_at(points: Points, tombstones: Set<Seq<char>>, i: int)
    requires
        0 <= i < points.len(),
        !tombstones.contains(points[i].1),
    ensures
        live_numbers(points, tombstones).contains(points[i].0 as int),
    decreases points.len(),
{
    if i < points.len() - 1 {
        assert(points.drop_last()[i] == points[i]);
        lemma_live_numbers_at(points.drop_last(), tombstones, i);
    }
}

proof fn lemma_live_numbers_len(points: Points, tombstones: Set<Seq<char>>)
    requires
        distinct_points(points),
    ensures
        live_numbers(points, tombstones).finite(),
        live_numbers(points, tombstones).len() == live_count(points, tombstones),
    decreases points.len(),
{
    if points.len() > 0 {
        let rest = points.drop_last();
        assert forall|a: int, b: int| 0 <= a < b < rest.len() implies (#[trigger] rest[a]).0 != (
        #[trigger] rest[b]).0 by {
            assert(rest[a] == points[a] && rest[b] == points[b]);
        }
        lemma_live_numbers_len(rest, tombstones);
        let last = points.last().0 as int;
        lemma_live_number(rest, tombstones, last);
        if live_numbers(rest, tombstones).contains(last) {
            let i = choose|i: int| 0 <= i < rest.len() && (#[trigger] rest[i]).0 == last;
            assert(points[i] == rest[i]);
            assert(points[points.len() - 1] == points.last());
        }
    }
}

/// The live points have as many numbers, and those are the ones that give something in a search.
proof fn lemma_live_numbers(m: IndexModel)
    requires
        distinct_points(m.points),
    ensures
        live_numbers(m.points, m.tombstones).finite(),
        live_numbers(m.points, m.tombstones).len() == live_count(m.points, m.tombstones),
        forall|pid: usize| #[trigger]
            live_numbers(m.points, m.tombstones).contains(pid as int) <==> live(m, pid) is Some,
{
    lemma_live_numbers_len(m.points, m.tombstones);
    assert forall|pid: usize| #[trigger]
        live_numbers(m.points, m.tombstones).contains(pid as int) <==> live(m, pid) is Some by {
        lemma_live_number(m.points, m.tombstones, pid as int);
        if live_numbers(m.points, m.tombstones).contains(pid as int) {
            let i = choose|i: int|
                0 <= i < m.points.len() && (#[trigger] m.points[i]).0 == pid as int
                    && !m.tombstones.contains(m.points[i].1);
            lemma_lookup(m.points, pid, i);
        }
        if live(m, pid) is Some {
            let i = lemma_lookup_witness(m.points, pid);
            lemma_live_numbers_at(m.points, m.tombstones, i);
        }
    }
}

proof fn lemma_all_below(points: Points, next: usize)
    requires
        handed_out(points, next),
    ensures
        below_count(points, next) == points.len(),
    decreases points.len(),
{
    if points.len() > 0 {
        let rest = points.drop_last();
        assert(points[points.len() - 1] == points.last());
        assert forall|i: int| 0 <= i < rest.len() implies (#[trigger] rest[i]).0 < next by {
            assert(rest[i] == points[i]);
        }
        lemma_all_below(rest, next);
    }
}

/// The numbers of the entries below the next one, or of those beyond.
spec fn numbers(points: Points, next: usize, below: bool) -> Set<int>
    decreases points.len(),
{
    if points.len() == 0 {
        Set::empty()
    } else if (points.last().0 < next) == below {
        numbers(points.drop_last(), next, below).insert(points.last().0 as int)
    } else {
        numbers(points.drop_last(), next, below)
    }
}

proof fn lemma_number(points: Points, next: usize, below: bool, p: int)
    ensures
        numbers(points, next, below).contains(p) <==> (p < next) == below && exists|i: int|
            0 <= i < points.len() && (#[trigger] points[i]).0 == p,
    decreases points.len(),
{
    if points.len() > 0 {
        let rest = points.drop_last();
        lemma_number(rest, next, below, p);
        assert(points[points.len() - 1] == points.last());
        if exists|i: int| 0 <= i < rest.len() && (#[trigger] rest[i]).0 == p {
            let i = choose|i: int| 0 <= i < rest.len() && (#[trigger] rest[i]).0 == p;
            assert(points[i] == rest[i]);
        }
        if exists|i: int| 0 <= i < points.len() && (#[trigger] points[i]).0 == p {
            let i = choose|i: int| 0 <= i < points.len() && (#[trigger] points[i]).0 == p;
            if i < rest.len() {
                assert(rest[i] == points[i]);
            }
        }
    }
}

proof fn lemma_numbers_len(points: Points, next: usize, below: bool)
    requires
        distinct_points(points),
    ensures
        numbers(points, next, below).finite(),
        numbers(points, next, below).len() == if below {
            below_count(points, next) as int
        } else {
            points.len() - below_count(points, next)
        },
    decreases points.len(),
{
    if points.len() > 0 {
        let rest = points.drop_last();
        assert forall|a: int, b: int| 0 <= a < b < rest.len() implies (#[trigger] rest[a]).0 != (
        #[trigger] rest[b]).0 by {
            assert(rest[a] == points[a] && rest[b] == points[b]);
        }
        lemma_numbers_len(rest, next, below);
        let last = points.last().0 as int;
        lemma_number(rest, next, below, last);
        if numbers(rest, next, below).contains(last) {
            let i = choose|i: int| 0 <= i < rest.len() && (#[trigger] rest[i]).0 == last;
            assert(points[i] == rest[i]);
            assert(points[points.len() - 1] == points.last());
        }
    }
}

/// All numbers that the graph may hold.
spec fn known_numbers(m: IndexModel) -> Set<int> {
    set_int_range(0, m.next as int) + numbers(m.points, m.next, false)
}

/// The graph may hold as many points as are counted, and the live ones are among them.
proof fn lemma_known_numbers(m: IndexModel)
    requires
        distinct_points(m.points),
    ensures
        below_count(m.points, m.next) <= m.next,
        known_numbers(m).finite(),
        known_numbers(m).len() == known_count(m),
        live_numbers(m.points, m.tombstones).subset_of(known_numbers(m)),
        forall|pid: usize|
            pid < m.next || lookup(m.points, pid) is Some ==> #[trigger] known_numbers(m).contains(
                pid as int,
            ),
{
    let handed = set_int_range(0, m.next as int);
    let below = numbers(m.points, m.next, true);
    let beyond = numbers(m.points, m.next, false);
    lemma_int_range(0, m.next as int);
    lemma_numbers_len(m.points, m.next, true);
    lemma_numbers_len(m.points, m.next, false);
    assert forall|p: int| #[trigger] below.contains(p) implies handed.contains(p) by {
        lemma_number(m.points, m.next, true, p);
    }
    lemma_len_subset(below, handed);
    assert forall|p: int| #[trigger] beyond.contains(p) implies !handed.contains(p) by {
        lemma_number(m.points, m.next, false, p);
    }
    assert(handed.disjoint(beyond));
    lemma_set_disjoint_lens(handed, beyond);
    assert forall|p: int| #[trigger]
        live_numbers(m.points, m.tombstones).contains(p) implies known_numbers(m).contains(p) by {
        lemma_live_number(m.points, m.tombstones, p);
        lemma_number(m.points, m.next, false, p);
    }
    assert forall|pid: usize|
        pid < m.next || lookup(m.points, pid) is Some implies #[trigger] known_numbers(m).contains(
        pid as int,
    ) by {
        if lookup(m.points, pid) is Some {
            let i = lemma_lookup_witness(m.points, pid);
            assert(m.points[i].0 == pid);
            lemma_number(m.points, m.next, false, pid as int);
        }
    }
}

/// How many of the neighbours give a memory.
spec fn live_among(m: IndexModel, neighbours: Seq<Neighbour>) -> nat
    decreases neighbours.len(),
{
    if neighbours.len() == 0 {
        0
    } else if live(m, neighbours[0].point_id) is Some {
        live_among(m, neighbours.skip(1)) + 1
    } else {
        live_among(m, neighbours.skip(1))
    }
}

proof fn lemma_hits_len(m: IndexModel, neighbours: Seq<Neighbour>, k: nat)
    ensures
        hits(m, neighbours, k).len() == if k <= live_among(m, neighbours) {
            k
        } else {
            live_among(m, neighbours)
        },
    decreases neighbours.len(),
{
    if neighbours.len() > 0 && k > 0 {
        lemma_hits_len(m, neighbours.skip(1), k);
        lemma_hits_len(m, neighbours.skip(1), (k - 1) as nat);
    }
}

/// Different points of the graph.
pub open spec fn distinct_neighbours(m: IndexModel, neighbours: Seq<Neighbour>) -> bool {
    &&& forall|i: int|
        0 <= i < neighbours.len() ==> (#[trigger] neighbours[i]).point_id < m.next || lookup(
            m.points,
            neighbours[i].point_id,
        ) is Some
    &&& forall|i: int, j: int|
        0 <= i < j < neighbours.len() ==> (#[trigger] neighbours[i]).point_id != (
        #[trigger] neighbours[j]).point_id
}

/// Live and idle neighbours are part of all live and idle points.
proof fn lemma_split(m: IndexModel, neighbours: Seq<Neighbour>, alive: Set<int>, idle: Set<int>)
    requires
        alive.finite(),
        idle.finite(),
        distinct_neighbours(m, neighbours),
        forall|i: int|
            0 <= i < neighbours.len() ==> if live(m, (#[trigger] neighbours[i]).point_id) is Some {
                alive.contains(neighbours[i].point_id as int)
            } else {
                idle.contains(neighbours[i].point_id as int)
            },
    ensures
        live_among(m, neighbours) <= alive.len(),
        neighbours.len() - live_among(m, neighbours) <= idle.len(),
    decreases neighbours.len(),
{
    if neighbours.len() > 0 {
        let rest = neighbours.skip(1);
        let first = neighbours[0].point_id as int;
        let alive_rest = alive.remove(first);
        let idle_rest = idle.remove(first);
        assert forall|i: int| 0 <= i < rest.len() implies ((#[trigger] rest[i]).point_id < m.next
            || lookup(m.points, rest[i].point_id) is Some) && rest[i].point_id != first && if live(m, rest[i].point_id) is Some {
            alive_rest.contains(rest[i].point_id as int)
        } else {
            idle_rest.contains(rest[i].point_id as int)
        } by {
            assert(rest[i] == neighbours[i + 1]);
            assert(neighbours[0].point_id != neighbours[i + 1].point_id);
        }
        assert forall|i: int, j: int| 0 <= i < j < rest.len() implies (
        #[trigger] rest[i]).point_id != (#[trigger] rest[j]).point_id by {
            assert(rest[i] == neighbours[i + 1] && rest[j] == neighbours[j + 1]);
        }
        if live(m, neighbours[0].point_id) is Some {
            assert(idle_rest.len() <= idle.len());
            lemma_split(m, rest, alive_rest, idle);
        } else {
            lemma_split(m, rest, alive, idle_rest);
        }
    }
}

/// Neither deleted nor replaced memories starve a search. As many different points of the graph as
/// a search asks for leave `k` hits; and where the graph has no more points than it gave, every live
/// memory is among the hits, or `k` are.
pub proof fn law_idle_points_do_not_starve_a_search(
    m: IndexModel,
    neighbours: Seq<Neighbour>,
    k: nat,
)
    requires
        distinct_points(m.points),
        distinct_neighbours(m, neighbours),
    ensures
        neighbours.len() >= k + idle_count(m) ==> hits(m, neighbours, k).len() == k,
        neighbours.len() == known_count(m) ==> hits(m, neighbours, k).len() == if k <= live_count(
            m.points,
            m.tombstones,
        ) {
            k
        } else {
            live_count(m.points, m.tombstones)
        },
{
    let alive = live_numbers(m.points, m.tombstones);
    let all = known_numbers(m);
    let idle = all.difference(alive);
    lemma_live_numbers(m);
    lemma_known_numbers(m);
    assert(idle.disjoint(alive));
    assert(idle + alive =~= all);
    lemma_set_disjoint_lens(idle, alive);
    lemma_split(m, neighbours, alive, idle);
    lemma_hits_len(m, neighbours, k);
}

/// What was stored is taken up again as it was.
pub proof fn law_load_after_snapshot(m: IndexModel)
    ensures
        loaded(Some(Ok::<IndexModel, Seq<char>>(m)), m.dimensions, true, true) == Ok::<
            IndexModel,
            Seq<char>,
        >(m),
{
}

/// Whether a point stands for a memory that is not deleted.
pub open spec fn stands_for(m: IndexModel, pid: usize, id: Seq<char>) -> bool {
    m.points.contains((pid, id)) && !m.tombstones.contains(id)
}

/// Whether a point stands for any memory that is not deleted.
pub open spec fn is_live(m: IndexModel, pid: usize) -> bool {
    exists|id: Seq<char>| #[trigger] stands_for(m, pid, id)
}

proof fn lemma_live_is_standing(m: IndexModel, pid: usize, id: Seq<char>)
    requires
        distinct_points(m.points),
    ensures
        live(m, pid) == Some(id) <==> stands_for(m, pid, id),
        live(m, pid) is Some <==> is_live(m, pid),
{
    if lookup(m.points, pid) is Some {
        let i = lemma_lookup_witness(m.points, pid);
        assert(m.points.contains(m.points[i]));
    }
    if m.points.contains((pid, id)) {
        let i = choose|i: int| 0 <= i < m.points.len() && m.points[i] == (pid, id);
        lemma_lookup(m.points, pid, i);
    }
    if live(m, pid) is Some {
        assert(stands_for(m, pid, live(m, pid)->0));
    }
    if is_live(m, pid) {
        let x = choose|x: Seq<char>| #[trigger] stands_for(m, pid, x);
        let i = choose|i: int| 0 <= i < m.points.len() && m.points[i] == (pid, x);
        lemma_lookup(m.points, pid, i);
    }
}

proof fn lemma_filter_front(s: Seq<Neighbour>, p: spec_fn(Neighbour) -> bool)
    requires
        s.len() > 0,
    ensures
        s.filter(p) == if p(s[0]) {
            seq![s[0]] + s.skip(1).filter(p)
        } else {
            s.skip(1).filter(p)
        },
    decreases s.len(),
{
    reveal(Seq::filter);
    let rest = s.drop_last();
    if rest.len() > 0 {
        lemma_filter_front(rest, p);
        assert(s.skip(1).drop_last() =~= rest.skip(1));
        assert(s.skip(1).last() == s.last());
        assert(rest[0] == s[0]);
        assert(s.filter(p) =~= if p(s[0]) {
            seq![s[0]] + s.skip(1).filter(p)
        } else {
            s.skip(1).filter(p)
        });
    } else {
        assert(s.skip(1).len() == 0);
        assert(s.skip(1).filter(p).len() == 0);
        assert(rest.filter(p).len() == 0);
        assert(s.last() == s[0]);
        if p(s[0]) {
            assert(s.filter(p) =~= seq![s[0]] + s.skip(1).filter(p));
        } else {
            assert(s.filter(p) =~= s.skip(1).filter(p));
        }
    }
}

/// The hits of a search are the neighbours that stand for memories, in their order, the first `k` of
/// them; each with its memory and its similarity, moved into the unit interval.
pub proof fn law_hits_are_the_nearest_memories(m: IndexModel, neighbours: Seq<Neighbour>, k: nat)
    requires
        distinct_points(m.points),
    ensures
        ({
            let near = neighbours.filter(|n: Neighbour| is_live(m, n.point_id));
            let out = hits(m, neighbours, k);
            &&& near.len() <= k ==> out.len() == near.len()
            &&& near.len() > k ==> out.len() == k
            &&& forall|i: int|
                0 <= i < out.len() ==> stands_for(m, near[i].point_id, (#[trigger] out[i]).0)
                    && out[i].1 == unit_clamped(near[i].similarity)
        }),
    decreases neighbours.len(),
{
    let p = |n: Neighbour| is_live(m, n.point_id);
    let near = neighbours.filter(p);
    let out = hits(m, neighbours, k);
    if neighbours.len() == 0 {
        reveal(Seq::filter);
        assert(near.len() == 0);
    } else if k > 0 {
        let first = neighbours[0];
        let rest = neighbours.skip(1);
        lemma_filter_front(neighbours, p);
        match live(m, first.point_id) {
            Some(id) => {
                lemma_live_is_standing(m, first.point_id, id);
                law_hits_are_the_nearest_memories(m, rest, (k - 1) as nat);
                let others = hits(m, rest, (k - 1) as nat);
                assert forall|i: int| 0 <= i < out.len() implies stands_for(
                    m,
                    near[i].point_id,
                    (#[trigger] out[i]).0,
                ) && out[i].1 == unit_clamped(near[i].similarity) by {
                    if i > 0 {
                        assert(out[i] == others[i - 1]);
                        assert(near[i] == rest.filter(p)[i - 1]);
                    }
                }
            },
            None => {
                lemma_live_is_standing(m, first.point_id, Seq::empty());
                law_hits_are_the_nearest_memories(m, rest, k);
            },
        }
    }
}

/// An insertion gives a memory the next number and takes it back from the deleted ones; whatever it
/// had before stands for nothing. Every other memory keeps its number and stays as it was.
pub proof fn law_an_insertion_changes_one_memory(
    m: IndexModel,
    id: Seq<char>,
    pid: usize,
    other: Seq<char>,
)
    requires
        consistent(m),
        m.next < usize::MAX,
    ensures
        ({
            let after = inserted(m, id);
            &&& after.next == m.next + 1
            &&& after.dimensions == m.dimensions
            &&& stands_for(after, pid, id) <==> pid == m.next
            &&& other != id ==> (stands_for(after, pid, other) <==> stands_for(m, pid, other))
            &&& other != id ==> (after.tombstones.contains(other) <==> m.tombstones.contains(other))
        }),
{
    let after = inserted(m, id);
    let kept = without(m.points, id);
    lemma_without(m, id);
    lemma_nothing_struck(m, id);
    assert(after.points == kept.push((m.next, id)));
    assert(after.points[kept.len() as int] == (m.next, id));
    assert forall|x: (usize, Seq<char>)| #[trigger]
        after.points.contains(x) <==> x == (m.next, id) || kept.contains(x) by {
        if after.points.contains(x) {
            let i = choose|i: int| 0 <= i < after.points.len() && after.points[i] == x;
            if i < kept.len() {
                assert(kept[i] == x);
            }
        }
        if kept.contains(x) {
            let i = choose|i: int| 0 <= i < kept.len() && kept[i] == x;
            assert(after.points[i] == x);
        }
    }
    if kept.contains((pid, id)) {
        let i = choose|i: int| 0 <= i < kept.len() && kept[i] == (pid, id);
        assert(holds(kept, id));
    }
    if other != id {
        if kept.contains((pid, other)) {
            let i = choose|i: int| 0 <= i < kept.len() && kept[i] == (pid, other);
            assert(m.points.contains(kept[i]));
        }
        if m.points.contains((pid, other)) {
            let i = choose|i: int| 0 <= i < m.points.len() && m.points[i] == (pid, other);
            assert(kept.contains(m.points[i]));
        }
    }
}

/// A deletion takes one memory out of every search and leaves all others; what is not there cannot
/// be deleted.
pub proof fn law_a_deletion_takes_out_one_memory(
    m: IndexModel,
    id: Seq<char>,
    pid: usize,
    other: Seq<char>,
)
    ensures
        ({
            let after = deleted(m, id);
            &&& !stands_for(after, pid, id)
            &&& other != id ==> (stands_for(after, pid, other) <==> stands_for(m, pid, other))
            &&& after.points == m.points
            &&& after.next == m.next
            &&& after.dimensions == m.dimensions
            &&& !holds(m.points, id) ==> after == m
        }),
{
    if m.points.contains((pid, id)) {
        let i = choose|i: int| 0 <= i < m.points.len() && m.points[i] == (pid, id);
        assert(m.points[i].1 == id);
        assert(holds(m.points, id));
    }
}

/// An index is loaded as it was saved. One that was never saved is empty; one of another length of
/// vectors, or with a file missing, is refused.
pub proof fn law_an_index_is_loaded_whole_or_not_at_all(
    meta: Option<Result<HnswMeta, String>>,
    dimensions: usize,
    has_data: bool,
    has_graph: bool,
    r: Result<HnswVectorIndex, VectorIndexError>,
)
    requires
        call_ensures(HnswVectorIndex::load, (meta, dimensions, has_data, has_graph), r),
    ensures
        meta is None ==> r is Ok && r->Ok_0@.points.len() == 0 && r->Ok_0@.next == 0
            && r->Ok_0@.dimensions == dimensions && r->Ok_0@.tombstones == Set::<
            Seq<char>,
        >::empty(),
        meta is Some ==> (r is Ok <==> meta->0 is Ok && meta->0->Ok_0.dimensions == dimensions
            && has_data && has_graph),
        meta is Some && r is Ok ==> r->Ok_0@ == meta->0->Ok_0@,
{
}

/// The three parts of a stored index have keys of their own, all in the same place.
pub proof fn law_an_index_has_three_keys(data: StorageKey, graph: StorageKey, meta: StorageKey)
    requires
        call_ensures(key_hnsw_data, (), data),
        call_ensures(key_hnsw_graph, (), graph),
        call_ensures(key_hnsw_meta, (), meta),
    ensures
        data@ != graph@ && data@ != meta@ && graph@ != meta@,
        has_prefix(data@, "vector_index/"@),
        has_prefix(graph@, "vector_index/"@),
        has_prefix(meta@, "vector_index/"@),
{
    reveal_strlit("vector_index/");
    reveal_strlit("vector_index/loop_hnsw.hnsw.data");
    reveal_strlit("vector_index/loop_hnsw.hnsw.graph");
    reveal_strlit("vector_index/loop_hnsw_meta.json");
    assert(data@.take(13) =~= "vector_index/"@);
    assert(graph@.take(13) =~= "vector_index/"@);
    assert(meta@.take(13) =~= "vector_index/"@);
    assert(data@.len() != graph@.len());
    assert(data@[22] == '.' && meta@[22] == '_');
    assert(graph@[22] == '.');
}

/// What is stored of an index is all that it holds.
pub proof fn law_a_snapshot_keeps_everything(index: &HnswVectorIndex, meta: HnswMeta)
    requires
        call_ensures(HnswVectorIndex::snapshot, (index,), meta),
    ensures
        meta@ == index@,
{
}

} // verus!

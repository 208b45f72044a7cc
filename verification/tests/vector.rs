//! The vector index, over a graph of nearest neighbours.

use hnsw_rs::anndists::dist::distances::DistCosine;
use hnsw_rs::hnsw::Hnsw;
use loop_engine::engine::error::EngineError;
use loop_engine::engine::memory::MemoryId;
use loop_engine::engine::storage::error::StorageError;
use loop_engine::engine::vector::error::VectorIndexError;
use loop_engine::engine::vector::hit::SearchHit;
use loop_engine::engine::vector::hnsw::{
    key_hnsw_data, key_hnsw_graph, key_hnsw_meta, HnswMeta, HnswVectorIndex, Neighbour,
    HNSW_EF_CONSTRUCTION, HNSW_EF_SEARCH_PADDING, HNSW_MAX_ELEMENTS, HNSW_MAX_LAYER,
    HNSW_MAX_NB_CONNECTION,
};

fn id(s: &str) -> MemoryId {
    MemoryId::new(s.to_string())
}

fn bits(v: &[f32]) -> Vec<u32> {
    v.iter().map(|x| x.to_bits()).collect()
}

fn unit_vec(dim: usize, axis: usize) -> Vec<f32> {
    let mut v = vec![0.0_f32; dim];
    v[axis % dim] = 1.0;
    v
}

/// The index beside its graph, as a host holds them.
struct Rig {
    index: HnswVectorIndex,
    graph: Hnsw<'static, f32, DistCosine>,
}

impl Rig {
    fn new(dimensions: usize) -> Rig {
        Rig {
            index: HnswVectorIndex::new(dimensions),
            graph: Hnsw::<f32, DistCosine>::new(
                HNSW_MAX_NB_CONNECTION,
                HNSW_MAX_ELEMENTS,
                HNSW_MAX_LAYER,
                HNSW_EF_CONSTRUCTION,
                DistCosine {},
            ),
        }
    }

    fn insert(&mut self, id: &MemoryId, vector: &[f32]) -> Result<(), VectorIndexError> {
        let point = self.index.insert(id, &bits(vector))?;
        self.graph.insert_slice((vector, point));
        Ok(())
    }

    fn search(&self, query: &[f32], k: usize) -> Result<Vec<SearchHit>, VectorIndexError> {
        let width = self.index.search_width(&bits(query), k)?;
        let neighbours = self
            .graph
            .search(query, width, HNSW_EF_SEARCH_PADDING)
            .iter()
            .map(|n| Neighbour {
                point_id: n.get_origin_id(),
                similarity: (1.0 - n.distance).to_bits(),
            })
            .collect();
        Ok(self.index.search(&neighbours, k))
    }
}

#[test]
fn dimension_mismatch_display_includes_both_values() {
    let e = VectorIndexError::DimensionMismatch {
        provided: 384,
        expected: 768,
    };
    let s = e.message();
    assert!(s.contains("384") && s.contains("768"));
}

#[test]
fn transport_constructor_wraps_error() {
    let inner = std::io::Error::new(std::io::ErrorKind::TimedOut, "slow");
    let err = VectorIndexError::transport(inner.to_string());
    assert!(matches!(err, VectorIndexError::Transport(_)));
    assert_eq!(err.message(), "vector index transport: slow");
}

#[test]
fn from_into_engine_error() {
    let err: EngineError = VectorIndexError::InvalidVector("contains NaN".into()).into();
    assert!(matches!(err, EngineError::VectorIndex(_)));
}

#[test]
fn search_hit_constructor() {
    let id = id("mem-aaaaaaaa");
    let hit = SearchHit::new(id.clone(), 0.85f32.to_bits());
    assert_eq!(hit.id, id);
    assert!((f32::from_bits(hit.similarity) - 0.85).abs() < f32::EPSILON);
}

#[test]
fn insert_then_search_returns_self_first() {
    let mut idx = Rig::new(4);
    let a = id("mem-aaaaaaaa");
    let b = id("mem-bbbbbbbb");
    idx.insert(&a, &unit_vec(4, 0)).unwrap();
    idx.insert(&b, &unit_vec(4, 1)).unwrap();
    let hits = idx.search(&unit_vec(4, 0), 2).unwrap();
    assert!(!hits.is_empty(), "expected at least one hit");
    assert_eq!(hits[0].id, a);
    assert!(f32::from_bits(hits[0].similarity) > 0.9);
}

#[test]
fn dimension_mismatch_on_insert_errors() {
    let mut idx = Rig::new(4);
    let id = id("mem-aaaaaaaa");
    let r = idx.insert(&id, &[1.0, 0.0]);
    match r {
        Err(VectorIndexError::DimensionMismatch {
            provided: 2,
            expected: 4,
        }) => {}
        other => panic!("expected DimensionMismatch, got {other:?}"),
    }
}

#[test]
fn nan_vector_rejected() {
    let mut idx = Rig::new(2);
    let id = id("mem-aaaaaaaa");
    let r = idx.insert(&id, &[1.0, f32::NAN]);
    assert!(matches!(r, Err(VectorIndexError::InvalidVector(_))));
    let r = idx.insert(&id, &[1.0, f32::NEG_INFINITY]);
    assert!(matches!(r, Err(VectorIndexError::InvalidVector(_))));
    assert!(idx.search(&[f32::INFINITY, 0.0], 1).is_err());
}

#[test]
fn delete_tombstones_id_and_search_skips() {
    let mut idx = Rig::new(4);
    let a = id("mem-aaaaaaaa");
    let b = id("mem-bbbbbbbb");
    idx.insert(&a, &unit_vec(4, 0)).unwrap();
    idx.insert(&b, &unit_vec(4, 1)).unwrap();
    idx.index.delete(&a);
    let hits = idx.search(&unit_vec(4, 0), 5).unwrap();
    assert!(
        !hits.iter().any(|h| h.id == a),
        "tombstoned id should not appear: {hits:?}"
    );
}

#[test]
fn hnsw_delete_idempotent_for_absent_id() {
    let mut idx = Rig::new(4);
    let absent = id("mem-noexist1");
    idx.index.delete(&absent);
    idx.index.delete(&absent);
}

#[test]
fn insert_replaces_when_id_already_present() {
    let mut idx = Rig::new(4);
    let a = id("mem-replace1");
    idx.insert(&a, &unit_vec(4, 0)).unwrap();
    idx.insert(&a, &unit_vec(4, 2)).unwrap();
    let hits = idx.search(&unit_vec(4, 2), 1).unwrap();
    assert_eq!(hits.first().map(|h| &h.id), Some(&a));
    assert!(f32::from_bits(hits[0].similarity) > 0.9);
}

#[test]
fn persist_and_load_round_trip() {
    let mut idx1 = Rig::new(4);
    let a = id("mem-aaaaaaaa");
    let b = id("mem-bbbbbbbb");
    idx1.insert(&a, &unit_vec(4, 0)).unwrap();
    idx1.insert(&b, &unit_vec(4, 1)).unwrap();
    idx1.index.delete(&b);
    let meta = idx1.index.snapshot();

    let idx2 = Rig {
        index: HnswVectorIndex::load(Some(Ok(meta)), 4, true, true).unwrap(),
        graph: idx1.graph,
    };
    let hits = idx2.search(&unit_vec(4, 1), 5).unwrap();
    assert!(
        !hits.iter().any(|h| h.id == b),
        "tombstone state must survive persist+reload"
    );
    let hits = idx2.search(&unit_vec(4, 0), 1).unwrap();
    assert_eq!(hits.first().map(|h| &h.id), Some(&a));
}

#[test]
fn load_returns_fresh_index_when_storage_empty() {
    let idx = HnswVectorIndex::load(None, 4, false, false).unwrap();
    assert_eq!(idx.dimensions(), 4);
    let hits = idx.search(&vec![], 5);
    assert!(hits.is_empty());
}

#[test]
fn load_with_wrong_dimension_errors() {
    let mut idx1 = Rig::new(4);
    idx1.insert(&id("mem-aaaaaaaa"), &unit_vec(4, 0)).unwrap();
    let meta = idx1.index.snapshot();
    let r = HnswVectorIndex::load(Some(Ok(meta)), 8, true, true);
    match r {
        Err(VectorIndexError::DimensionMismatch {
            provided: 8,
            expected: 4,
        }) => {}
        other => panic!("expected DimensionMismatch, got {other:?}"),
    }
}

#[test]
fn load_wants_every_part_of_a_dump() {
    let meta = || {
        Ok(HnswMeta {
            dimensions: 4,
            next_point_id: 0,
            id_map: vec![],
            tombstones: vec![],
        })
    };
    let missing = |r: Result<HnswVectorIndex, VectorIndexError>| match r {
        Err(VectorIndexError::Internal(m)) => m,
        other => panic!("expected Internal, got {other:?}"),
    };
    assert_eq!(
        missing(HnswVectorIndex::load(Some(meta()), 4, false, true)),
        "hnsw_data missing despite meta present"
    );
    assert_eq!(
        missing(HnswVectorIndex::load(Some(meta()), 4, true, false)),
        "hnsw_graph missing despite meta present"
    );
    assert_eq!(
        missing(HnswVectorIndex::load(
            Some(Err("eof".to_string())),
            4,
            true,
            true
        )),
        "malformed hnsw meta: eof"
    );
}

#[test]
fn deletions_do_not_starve_a_search() {
    let mut idx = Rig::new(4);
    for axis in 0..4 {
        idx.insert(&id(&format!("mem-{axis}")), &unit_vec(4, axis))
            .unwrap();
    }
    idx.index.delete(&id("mem-0"));
    idx.index.delete(&id("mem-1"));
    assert_eq!(
        idx.index.search_width(&bits(&unit_vec(4, 0)), 2).unwrap(),
        4
    );
    let hits = idx.search(&unit_vec(4, 0), 2).unwrap();
    assert_eq!(hits.len(), 2);
}

#[test]
fn replaced_points_do_not_starve_a_search() {
    let mut idx = Rig::new(4);
    let a = id("mem-a");
    idx.insert(&a, &unit_vec(4, 0)).unwrap();
    idx.insert(&a, &unit_vec(4, 2)).unwrap();
    let query = [1.0, 0.0, 0.0, 0.0];
    assert_eq!(idx.index.search_width(&bits(&query), 1).unwrap(), 2);
    let hits = idx.search(&query, 1).unwrap();
    assert_eq!(hits.len(), 1);
    assert_eq!(hits[0].id, a);
    idx.index.delete(&a);
    assert_eq!(idx.index.search_width(&bits(&query), 1).unwrap(), 3);
    assert_eq!(
        idx.index.search_width(&bits(&query), usize::MAX).unwrap(),
        usize::MAX
    );
    assert!(idx.search(&query, 1).unwrap().is_empty());
}

#[test]
fn load_takes_up_any_numbers() {
    let meta = HnswMeta {
        dimensions: 1,
        next_point_id: 1,
        id_map: vec![(0, id("mem-a")), (1, id("mem-b")), (5, id("mem-c"))],
        tombstones: vec![id("mem-c")],
    };
    assert!(matches!(
        HnswVectorIndex::load(Some(Ok(meta.clone())), 8, true, true),
        Err(VectorIndexError::DimensionMismatch { provided: 8, expected: 1 })
    ));
    let mut index = HnswVectorIndex::load(Some(Ok(meta.clone())), 1, true, true).unwrap();
    assert_eq!(index.snapshot(), meta);
    let one = bits(&[1.0]);
    assert_eq!(index.search_width(&one, 2).unwrap(), 3);
    let near = |point_id| Neighbour {
        point_id,
        similarity: 1.0f32.to_bits(),
    };
    let found = vec![near(5), near(1), near(0)];
    assert_eq!(index.search(&found, 2).len(), 2);

    assert_eq!(index.insert(&id("mem-d"), &one).unwrap(), 1);
    let names: Vec<String> = index
        .search(&found, 3)
        .iter()
        .map(|h| h.id.as_str().to_string())
        .collect();
    assert_eq!(names, vec!["mem-d", "mem-a"]);
}

#[test]
fn hits_come_best_first_and_no_more_than_wanted() {
    let mut index = HnswVectorIndex::new(1);
    let one = bits(&[1.0]);
    let points: Vec<usize> = (0..3)
        .map(|n| index.insert(&id(&format!("mem-{n}")), &one).unwrap())
        .collect();
    let near = |n: usize, s: f32| Neighbour {
        point_id: points[n],
        similarity: s.to_bits(),
    };
    let found = vec![near(0, 0.9), near(1, 0.5), near(2, -0.25)];
    let names = |k| {
        let hits = index.search(&found, k);
        let names: Vec<String> = hits.iter().map(|h| h.id.as_str().to_string()).collect();
        names
    };
    assert_eq!(names(5), vec!["mem-0", "mem-1", "mem-2"]);
    assert_eq!(names(2), vec!["mem-0", "mem-1"]);
    assert!(names(0).is_empty());
}

#[test]
fn the_parts_of_a_dump_have_their_keys() {
    let keys = [
        key_hnsw_data().as_str().to_string(),
        key_hnsw_graph().as_str().to_string(),
        key_hnsw_meta().as_str().to_string(),
    ];
    assert!(keys[0].ends_with("data"), "{}", keys[0]);
    assert!(keys[1].ends_with("graph"), "{}", keys[1]);
    assert!(keys[2].contains("meta"), "{}", keys[2]);
}

#[test]
fn engine_errors_have_messages() {
    let cases = [
        (EngineError::Parse("p".into()), "parse error: p"),
        (EngineError::Yaml("y".into()), "yaml error: y"),
        (
            EngineError::CasContended {
                key: "k".into(),
                retries: 5,
            },
            "write contended on k after 5 attempts",
        ),
        (
            EngineError::UserMemoryImmune {
                id: "mem-a".into(),
                cited_by: 2,
            },
            "user-cited memory is immune: mem-a cited by 2",
        ),
        (
            EngineError::LessonNotFound { id: "les-a".into() },
            "lesson not found: les-a",
        ),
        (EngineError::Other("o".into()), "o"),
    ];
    for (error, message) in cases {
        assert_eq!(error.message(), message);
    }
    let storage = StorageError::backend("disk".into());
    let text = storage.message();
    assert_eq!(EngineError::Storage(storage).message(), text);
}

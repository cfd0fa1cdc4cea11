use std::sync::Arc;

use indexmap::IndexMap;
use wgpu_mc::block::{
    canonical_state_key, Block, Multipart, MultipartCase, ResolveError, StateValue,
};
use wgpu_mc::mesh::{BlockMeshVertex, CubeOrComplexMesh, MeshFaces, ModelMesh};

fn part(tag: i32, transparent: bool) -> ModelMesh {
    let v = vec![BlockMeshVertex { x: tag, y: 0, z: 0, u: 0, v: 0 }];
    ModelMesh {
        shape: CubeOrComplexMesh::Cube(MeshFaces {
            north: Some(v),
            east: None,
            south: None,
            west: None,
            up: None,
            down: None,
        }),
        transparent,
    }
}

fn tag_of(m: &ModelMesh) -> Vec<i32> {
    match &m.shape {
        CubeOrComplexMesh::Cube(f) => vec![f.north.as_ref().unwrap()[0].x],
        CubeOrComplexMesh::Complex(gs) => gs.iter().map(|g| g.north.as_ref().unwrap()[0].x).collect(),
    }
}

fn props(list: &[(&str, StateValue)]) -> Vec<(String, StateValue)> {
    list.iter()
        .map(|(k, v)| {
            let v = match v {
                StateValue::Bool(b) => StateValue::Bool(*b),
                StateValue::String(s) => StateValue::String(s.clone()),
            };
            (k.to_string(), v)
        })
        .collect()
}

fn s(v: &str) -> StateValue {
    StateValue::String(v.to_string())
}

fn fence() -> Block {
    Block::Multipart(Multipart {
        cases: vec![
            MultipartCase { when: vec![], apply: vec![Arc::new(part(1, true))] },
            MultipartCase {
                when: vec![("north".to_string(), StateValue::Bool(true))],
                apply: vec![Arc::new(part(2, true))],
            },
            MultipartCase {
                when: vec![("east".to_string(), StateValue::Bool(true))],
                apply: vec![Arc::new(part(3, false))],
            },
        ],
        keys: IndexMap::new(),
    })
}

fn anvil() -> Block {
    let mut t = IndexMap::new();
    t.insert("facing=north".to_string(), vec![Arc::new(part(10, false)), Arc::new(part(11, false))]);
    t.insert("facing=east".to_string(), vec![Arc::new(part(12, false))]);
    t.insert("facing=up".to_string(), vec![]);
    Block::Variants(t)
}

#[test]
fn canonical_key_joins_properties_in_order() {
    let p = props(&[("facing", s("north")), ("lit", StateValue::Bool(true)), ("open", StateValue::Bool(false))]);
    assert_eq!(canonical_state_key(&p), "facing=north,lit=true,open=false");
    assert_eq!(canonical_state_key(&Vec::new()), "");
    let q = props(&[("lit", StateValue::Bool(true)), ("facing", s("north"))]);
    assert_eq!(canonical_state_key(&q), "lit=true,facing=north");
}

#[test]
fn variants_resolve_to_first_candidate_and_position() {
    let mut b = anvil();
    let (m, h) = b.get_model_by_key(&props(&[("facing", s("east"))]), 7).unwrap();
    assert_eq!(h, 1);
    assert_eq!(tag_of(&m), vec![12]);
    let (m, h) = b.get_model_by_key(&props(&[("facing", s("north"))]), 0).unwrap();
    assert_eq!(h, 0);
    assert_eq!(tag_of(&m), vec![10]);
    assert_eq!(tag_of(&b.get_model(0, 3)), vec![10]);
    assert!(b.has_model(0));
    assert!(!b.has_model(3));
}

#[test]
fn unknown_and_empty_variants_are_errors() {
    let mut b = anvil();
    assert_eq!(
        b.get_model_by_key(&props(&[("facing", s("west"))]), 0).err(),
        Some(ResolveError::UnknownVariant)
    );
    assert_eq!(
        b.get_model_by_key(&props(&[("facing", s("up"))]), 0).err(),
        Some(ResolveError::EmptyVariant)
    );
    assert!(!b.has_model(2));
}

#[test]
fn resolve_twice_gives_same_handle() {
    let mut b = fence();
    let p = props(&[("north", StateValue::Bool(true)), ("east", StateValue::Bool(false))]);
    let (m1, h1) = b.get_model_by_key(&p, 0).unwrap();
    let (m2, h2) = b.get_model_by_key(&p, 0).unwrap();
    assert_eq!(h1, h2);
    assert_eq!(tag_of(&m1), tag_of(&m2));
    let mut v = anvil();
    let q = props(&[("facing", s("east"))]);
    assert_eq!(v.get_model_by_key(&q, 0).unwrap().1, v.get_model_by_key(&q, 0).unwrap().1);
}

#[test]
fn multipart_combines_applying_cases() {
    let mut b = fence();
    let (m, h) = b
        .get_model_by_key(&props(&[("north", StateValue::Bool(true)), ("east", StateValue::Bool(true))]), 0)
        .unwrap();
    assert_eq!(h, 0);
    assert_eq!(tag_of(&m), vec![1, 2, 3]);
    assert!(!m.transparent);
    let (m, h) = b.get_model_by_key(&props(&[("north", StateValue::Bool(false))]), 0).unwrap();
    assert_eq!(h, 1);
    assert_eq!(tag_of(&m), vec![1]);
    assert!(m.transparent);
    assert_eq!(tag_of(&b.get_model(1, 0)), vec![1]);
    assert!(b.has_model(1));
    assert!(!b.has_model(2));
}

#[test]
fn multipart_handles_are_unique_under_racing_stores() {
    let b = fence();
    let mut mp = match b {
        Block::Multipart(mp) => mp,
        Block::Variants(_) => unreachable!(),
    };
    let p = props(&[("east", StateValue::Bool(true))]);
    let key = canonical_state_key(&p);
    assert!(mp.cached(&key).is_none());
    // Two callers both miss and both generate.
    let first = mp.generate_mesh(&p);
    let second = mp.generate_mesh(&p);
    assert_eq!(tag_of(&first), vec![1, 3]);
    let other = props(&[("north", StateValue::Bool(true))]);
    let h_first = mp.store_mesh(key.clone(), first).unwrap();
    let h_other = mp.store_mesh(canonical_state_key(&other), mp.generate_mesh(&other)).unwrap();
    let h_second = mp.store_mesh(key.clone(), second).unwrap();
    assert_eq!(h_first, 0);
    assert_eq!(h_other, 1);
    assert_eq!(h_second, h_first);
    let (m, h) = mp.cached(&key).unwrap().unwrap();
    assert_eq!(h, 0);
    assert_eq!(tag_of(&m), vec![1, 3]);
    assert_eq!(mp.keys.len(), 2);
}

#[test]
fn case_needs_every_condition() {
    let c = MultipartCase {
        when: vec![("a".to_string(), s("x")), ("b".to_string(), StateValue::Bool(true))],
        apply: vec![],
    };
    assert!(c.applies(&props(&[("b", StateValue::Bool(true)), ("a", s("x"))])));
    assert!(!c.applies(&props(&[("a", s("x"))])));
    assert!(!c.applies(&props(&[("a", s("y")), ("b", StateValue::Bool(true))])));
    assert!(!c.applies(&props(&[("a", StateValue::Bool(true)), ("b", StateValue::Bool(true))])));
}

#[test]
fn positions_beyond_sixteen_bits_are_refused() {
    let mut t = IndexMap::new();
    for i in 0..65537u32 {
        t.insert(format!("n={}", i), vec![Arc::new(part(0, false))]);
    }
    let mut b = Block::Variants(t);
    assert_eq!(b.get_model_by_key(&props(&[("n", s("65535"))]), 0).unwrap().1, 65535);
    assert_eq!(
        b.get_model_by_key(&props(&[("n", s("65536"))]), 0).err(),
        Some(ResolveError::HandleOverflow)
    );
}

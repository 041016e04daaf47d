use std::sync::Arc;

use reclipse::asset::{Asset, AssetKind, Loaded, Polled, PrimitiveMesh, PRIMITIVE_COUNT};
use reclipse::handle::Handle;
use reclipse::manager::AssetManager;
use reclipse::asset::Primitives;
use reclipse::scene::Scene;
use reclipse::sprite::Sprite;

#[derive(Debug, PartialEq)]
struct Texture(&'static str);

#[derive(Debug, PartialEq)]
struct Mesh(&'static str);

impl Asset for Texture {
    fn kind() -> AssetKind {
        AssetKind::Texture
    }
}

impl Asset for Mesh {
    fn kind() -> AssetKind {
        AssetKind::Mesh
    }
}

struct Context;

type Manager = AssetManager<Context, Mesh, Texture>;

fn manager() -> (Manager, Arc<Mesh>, Arc<Texture>) {
    let quad = Arc::new(Mesh("quad"));
    let default = Arc::new(Texture("default"));
    let m = AssetManager::new(Arc::new(Context), vec![quad.clone()], default.clone());
    (m, quad, default)
}

#[test]
fn texture_request_scenario() {
    let (mut m, _quad, default) = manager();
    let (h1, job) = m.get_handle::<Texture>("a.png");
    let job = job.expect("a new path dispatches a load");
    let (h2, again) = m.get_handle::<Texture>("a.png");
    assert!(again.is_none());
    assert!(h1 == h2);
    assert_eq!(job.id, h1.id());
    assert_eq!(job.kind, AssetKind::Texture);
    assert_eq!(job.path, "a.png");

    m.process_pending();
    assert!(Arc::ptr_eq(&m.get_texture(&h1), &default));

    let loaded = Arc::new(Texture("a"));
    job.sender.send(Loaded::Texture(loaded.clone())).unwrap();
    m.process_pending();
    let first = m.get_texture(&h1);
    let second = m.get_texture(&h2);
    assert!(Arc::ptr_eq(&first, &loaded));
    assert!(Arc::ptr_eq(&first, &second));
    assert_eq!(m.pending_count(), 0);
}

#[test]
fn primitive_quad_is_realized_at_once() {
    let (m, quad, _default) = manager();
    let h = m.get_primitive_handle(PrimitiveMesh::Quad);
    assert_eq!(h.id(), 0);
    assert!(Arc::ptr_eq(&m.get_mesh(&h), &quad));
    assert!(Arc::ptr_eq(&m.get_primitive_mesh(PrimitiveMesh::Quad), &quad));
    assert_eq!(PrimitiveMesh::Quad.id(), 0);
    assert_eq!(PRIMITIVE_COUNT, 1);
}

#[test]
fn identities_start_after_primitives() {
    let (mut m, _quad, _default) = manager();
    let (a, _ja) = m.get_handle::<Texture>("a.png");
    let (b, _jb) = m.get_handle::<Mesh>("b.obj");
    assert_eq!(a.id(), 1);
    assert_eq!(b.id(), 2);
    assert_eq!(m.pending_count(), 2);
}

#[test]
fn dedup_across_interleaved_requests() {
    let (mut m, _quad, _default) = manager();
    let (first, job) = m.get_handle::<Texture>("k.png");
    assert!(job.is_some());
    let (_x, jx) = m.get_handle::<Texture>("x.png");
    let (_y, jy) = m.get_handle::<Mesh>("y.obj");
    assert!(jx.is_some() && jy.is_some());
    let (again, none) = m.get_handle::<Texture>("k.png");
    assert!(none.is_none());
    assert!(first == again);
    assert_eq!(m.pending_count(), 3);
}

#[test]
fn pending_texture_reads_default() {
    let (mut m, _quad, default) = manager();
    let (h, _job) = m.get_handle::<Texture>("slow.png");
    assert!(Arc::ptr_eq(&m.get_texture(&h), &default));
    m.process_pending();
    assert!(Arc::ptr_eq(&m.get_texture(&h), &default));
    assert_eq!(m.pending_count(), 1);
}

#[test]
fn resolved_texture_stays() {
    let (mut m, _quad, _default) = manager();
    let (h, job) = m.get_handle::<Texture>("a.png");
    let loaded = Arc::new(Texture("a"));
    job.unwrap().sender.send(Loaded::Texture(loaded.clone())).unwrap();
    m.process_pending();
    assert!(Arc::ptr_eq(&m.get_texture(&h), &loaded));
    let (_other, _j) = m.get_handle::<Texture>("b.png");
    m.process_pending();
    m.process_pending();
    assert!(Arc::ptr_eq(&m.get_texture(&h), &loaded));
}

#[test]
fn quiet_drain_changes_nothing() {
    let (mut m, _quad, default) = manager();
    let (a, ja) = m.get_handle::<Texture>("a.png");
    let (b, _jb) = m.get_handle::<Texture>("b.png");
    let ta = Arc::new(Texture("a"));
    ja.unwrap().sender.send(Loaded::Texture(ta.clone())).unwrap();
    m.process_pending();
    assert_eq!(m.pending_count(), 1);
    m.process_pending();
    assert_eq!(m.pending_count(), 1);
    assert!(Arc::ptr_eq(&m.get_texture(&a), &ta));
    assert!(Arc::ptr_eq(&m.get_texture(&b), &default));
}

#[test]
fn independent_keys_second_finishes_first() {
    let (mut m, _quad, _default) = manager();
    let (h1, j1) = m.get_handle::<Texture>("one.png");
    let (h2, j2) = m.get_handle::<Texture>("two.png");
    assert!(h1 != h2);
    let t1 = Arc::new(Texture("one"));
    let t2 = Arc::new(Texture("two"));
    j2.unwrap().sender.send(Loaded::Texture(t2.clone())).unwrap();
    m.process_pending();
    j1.unwrap().sender.send(Loaded::Texture(t1.clone())).unwrap();
    m.process_pending();
    assert!(Arc::ptr_eq(&m.get_texture(&h1), &t1));
    assert!(Arc::ptr_eq(&m.get_texture(&h2), &t2));
}

#[test]
fn independent_keys_first_finishes_first() {
    let (mut m, _quad, _default) = manager();
    let (h1, j1) = m.get_handle::<Texture>("one.png");
    let (h2, j2) = m.get_handle::<Texture>("two.png");
    let t1 = Arc::new(Texture("one"));
    let t2 = Arc::new(Texture("two"));
    j1.unwrap().sender.send(Loaded::Texture(t1.clone())).unwrap();
    m.process_pending();
    j2.unwrap().sender.send(Loaded::Texture(t2.clone())).unwrap();
    m.process_pending();
    assert!(Arc::ptr_eq(&m.get_texture(&h1), &t1));
    assert!(Arc::ptr_eq(&m.get_texture(&h2), &t2));
}

#[test]
fn mesh_load_resolves() {
    let (mut m, quad, _default) = manager();
    let (h, job) = m.get_handle::<Mesh>("cube.obj");
    let job = job.unwrap();
    assert_eq!(job.kind, AssetKind::Mesh);
    assert!(Arc::ptr_eq(&m.get_mesh(&h), &quad));
    let cube = Arc::new(Mesh("cube"));
    job.sender.send(Loaded::Mesh(cube.clone())).unwrap();
    m.process_pending();
    assert!(Arc::ptr_eq(&m.get_mesh(&h), &cube));
}

#[test]
fn failed_load_keeps_default() {
    let (mut m, _quad, default) = manager();
    let (h, job) = m.get_handle::<Texture>("missing.png");
    job.unwrap().sender.send(Loaded::Failed).unwrap();
    m.process_pending();
    assert_eq!(m.pending_count(), 0);
    assert!(Arc::ptr_eq(&m.get_texture(&h), &default));
}

#[test]
fn closed_channel_counts_as_failure() {
    let (mut m, _quad, default) = manager();
    let (h, job) = m.get_handle::<Texture>("gone.png");
    drop(job);
    m.process_pending();
    assert_eq!(m.pending_count(), 0);
    assert!(Arc::ptr_eq(&m.get_texture(&h), &default));
}

#[test]
fn wrong_kind_delivery_is_dropped() {
    let (mut m, quad, default) = manager();
    let (h, job) = m.get_handle::<Texture>("odd.png");
    job.unwrap().sender.send(Loaded::Mesh(Arc::new(Mesh("odd")))).unwrap();
    m.process_pending();
    assert_eq!(m.pending_count(), 0);
    assert!(Arc::ptr_eq(&m.get_texture(&h), &default));
    let as_mesh = Handle::<Mesh>::new(h.id());
    assert!(Arc::ptr_eq(&m.get_mesh(&as_mesh), &quad));
}

#[test]
fn resolve_applies_one_outcome() {
    let (mut m, _quad, _default) = manager();
    let (h, _job) = m.get_handle::<Texture>("r.png");
    assert!(!m.resolve(0, Polled::Waiting));
    assert_eq!(m.pending_count(), 1);
    let t = Arc::new(Texture("r"));
    assert!(m.resolve(0, Polled::Ready(Loaded::Texture(t.clone()))));
    assert_eq!(m.pending_count(), 0);
    assert!(Arc::ptr_eq(&m.get_texture(&h), &t));
}

#[test]
fn request_by_kind_value() {
    let (mut m, _quad, _default) = manager();
    let (id, job) = m.request("v.png", AssetKind::Texture);
    assert_eq!(id, 1);
    let job = job.unwrap();
    assert_eq!(job.id, 1);
    assert_eq!(job.path, "v.png");
    let (same, none) = m.request("v.png", AssetKind::Mesh);
    assert_eq!(same, 1);
    assert!(none.is_none());
    assert!(m.can_reserve());
}

#[test]
fn scene_collects_entities() {
    let mut scene: Scene<Context, u32> = Scene::new(Arc::new(Context));
    assert!(scene.entities.is_empty());
    scene.create_entity(4);
    scene.create_entity(9);
    assert_eq!(scene.entities, vec![4, 9]);
    let _ctx = scene.context();
}

#[test]
fn sprite_uses_the_quad() {
    let quad = Arc::new(Mesh("quad"));
    let primitives = Primitives::new(quad.clone());
    assert!(Arc::ptr_eq(&primitives.get_mesh(PrimitiveMesh::Quad), &quad));
    let sprite = Sprite::new(Handle::<Texture>::new(8), &primitives);
    assert_eq!(sprite.texture.id(), 8);
    assert!(Arc::ptr_eq(&sprite.mesh, &quad));
}

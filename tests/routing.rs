use httq::{MeshView, OrbitalLocation, QuantumIdentity};

fn loc(id: &str, hops: &[&str], latency_ms: u32) -> OrbitalLocation {
    OrbitalLocation {
        identity: QuantumIdentity::from_hash(id),
        mesh_routes: hops.iter().map(|h| h.to_string()).collect(),
        latency_ms,
    }
}

#[test]
fn resolve_prefers_fewest_hops() {
    let mesh = MeshView {
        known: vec![
            loc("d", &["r1", "r2", "r3"], 5),
            loc("d", &["r4", "r5"], 90),
            loc("x", &["r6"], 1),
        ],
    };
    let r = mesh.resolve(&QuantumIdentity::from_hash("d")).unwrap();
    assert_eq!(r.mesh_routes, vec!["r4".to_string(), "r5".to_string()]);
    assert_eq!(r.latency_ms, 90);
    assert_eq!(r.identity.as_str(), "d");
}

#[test]
fn resolve_breaks_ties_by_latency_then_order() {
    let mesh = MeshView {
        known: vec![
            loc("d", &["a", "b"], 40),
            loc("d", &["c", "e"], 20),
            loc("d", &["f", "g"], 20),
        ],
    };
    let r = mesh.resolve(&QuantumIdentity::from_hash("d")).unwrap();
    assert_eq!(r.mesh_routes, vec!["c".to_string(), "e".to_string()]);
    assert_eq!(r.latency_ms, 20);
}

#[test]
fn resolve_reports_unreachable() {
    let mesh = MeshView {
        known: vec![loc("x", &["r1"], 1), loc("d", &[], 1)],
    };
    assert!(mesh.resolve(&QuantumIdentity::from_hash("d")).is_none());
    let empty = MeshView { known: vec![] };
    assert!(empty.resolve(&QuantumIdentity::from_hash("d")).is_none());
}

#[test]
fn resolve_is_stable_on_one_snapshot() {
    let mesh = MeshView {
        known: vec![loc("d", &["a"], 7), loc("d", &["b"], 7), loc("d", &["c", "e"], 1)],
    };
    let dest = QuantumIdentity::from_hash("d");
    let first = mesh.resolve(&dest).unwrap();
    let second = mesh.resolve(&dest).unwrap();
    assert_eq!(first.mesh_routes, second.mesh_routes);
    assert_eq!(first.latency_ms, second.latency_ms);
    assert_eq!(first.mesh_routes, vec!["a".to_string()]);
}

#[test]
fn location_duplicate_copies_every_field() {
    let a = loc("d", &["r1", "r2"], 12);
    let b = a.duplicate();
    assert_eq!(b.identity.as_str(), "d");
    assert_eq!(b.mesh_routes, a.mesh_routes);
    assert_eq!(b.latency_ms, 12);
}

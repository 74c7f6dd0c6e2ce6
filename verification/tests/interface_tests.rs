use faasten_core::buckle::{Buckle, Clause, Component};
use faasten_core::fs::{Context, CreateKind, FS, FsError};
use faasten_core::interface::{
    DentCreate, DentOpen, DirectGate, Gate, RedirectGate, Service, create, open,
};
use faasten_core::{dent_create, dent_open, gate};

fn clause(paths: &[&[&str]]) -> Clause {
    Clause {
        principals: paths.iter().map(|p| p.iter().map(|t| t.to_string()).collect()).collect(),
    }
}

fn public_ctx() -> Context {
    Context { label: Buckle::public(), privilege: Component::dc_true() }
}

#[test]
fn open_by_name_reports_kind_codes() {
    let mut fs = FS::new();
    let ctx = public_ctx();
    let fid = fs
        .create(&ctx, 0, "f".to_string(), Buckle::public(), CreateKind::File)
        .unwrap();
    let req = DentOpen { fd: 0, entry: Some(dent_open::Entry::Name("f".to_string())) };
    let r = open(&mut fs, &ctx, req);
    assert!(r.success);
    assert_eq!(r.fd, fid);
    assert_eq!(r.kind, 1);
    let missing = DentOpen { fd: 0, entry: Some(dent_open::Entry::Name("g".to_string())) };
    assert!(!open(&mut fs, &ctx, missing).success);
    let empty = DentOpen { fd: 0, entry: None };
    assert!(!open(&mut fs, &ctx, empty).success);
}

#[test]
fn open_facet_through_the_interface() {
    let mut fs = FS::new();
    let ctx = public_ctx();
    fs.create(&ctx, 0, "fd".to_string(), Buckle::public(), CreateKind::FacetedDirectory)
        .unwrap();
    let req = DentOpen { fd: 1, entry: Some(dent_open::Entry::Facet(Buckle::public())) };
    let r = open(&mut fs, &ctx, req);
    assert!(r.success);
    // a freshly materialized facet is a directory
    assert_eq!(r.kind, 0);
}

#[test]
fn create_rejects_malformed_requests() {
    let mut fs = FS::new();
    let ctx = public_ctx();
    // a request with no kind
    let r = create(&mut fs, &ctx, 0, "a".to_string(), DentCreate {
        label: Some(Buckle::public()),
        kind: None,
    });
    assert!(!r.success);
    // a gate request with a missing required sub-message
    let bad_gate = Gate {
        kind: Some(gate::Kind::Direct(DirectGate {
            privilege: None,
            invoker_integrity_clearance: Some(Component::dc_true()),
            function: None,
            declassify: Some(Component::dc_true()),
        })),
    };
    let r2 = create(&mut fs, &ctx, 0, "g".to_string(), DentCreate {
        label: Some(Buckle::public()),
        kind: Some(dent_create::Kind::Gate(bad_gate)),
    });
    assert!(!r2.success);
    // a well-formed redirect gate goes through
    let good_gate = Gate {
        kind: Some(gate::Kind::Redirect(RedirectGate {
            privilege: Some(Component::dc_true()),
            invoker_integrity_clearance: Some(Component::dc_true()),
            gate: 0,
            declassify: Some(Component::dc_true()),
        })),
    };
    let r3 = create(&mut fs, &ctx, 0, "g".to_string(), DentCreate {
        label: Some(Buckle::public()),
        kind: Some(dent_create::Kind::Gate(good_gate)),
    });
    assert!(r3.success);
    assert_eq!(r3.fd, Some(1));
}

#[test]
fn service_create_requires_taint() {
    let mut fs = FS::new();
    let ctx = public_ctx();
    let svc = Service {
        privilege: Some(Component::dc_true()),
        invoker_integrity_clearance: Some(Component::dc_true()),
        taint: None,
        url: "https://example.test".to_string(),
        verb: 0,
        headers: vec![],
    };
    let r = create(&mut fs, &ctx, 0, "s".to_string(), DentCreate {
        label: Some(Buckle::public()),
        kind: Some(dent_create::Kind::Service(svc)),
    });
    assert!(!r.success);
}

#[test]
fn delete_removes_the_name_under_flow_control() {
    let mut fs = FS::new();
    let ctx = public_ctx();
    fs.create(&ctx, 0, "f".to_string(), Buckle::public(), CreateKind::File).unwrap();
    assert_eq!(fs.delete(&ctx, 0, &"g".to_string()), Err(FsError::NotFound));
    assert_eq!(fs.delete(&ctx, 0, &"f".to_string()), Ok(()));
    assert_eq!(fs.open_name(0, &"f".to_string()), Err(FsError::NotFound));
    // deleting a secret entry needs the flow a write would need
    let secret = Buckle::new(
        Component::DcFormula(vec![clause(&[&["alice"]])]),
        Component::dc_true(),
    );
    fs.create(&ctx, 0, "s".to_string(), secret, CreateKind::File).unwrap();
    assert_eq!(fs.delete(&ctx, 0, &"s".to_string()), Ok(()));
    // but a write up to a secret level is permitted, and so is the delete;
    // the converse, deleting below one's own label, is not
    let alice_ctx = Context {
        label: Buckle::new(
            Component::DcFormula(vec![clause(&[&["alice"]])]),
            Component::dc_true(),
        ),
        privilege: Component::dc_true(),
    };
    fs.create(&ctx, 0, "p".to_string(), Buckle::public(), CreateKind::File).unwrap();
    assert_eq!(fs.delete(&alice_ctx, 0, &"p".to_string()), Err(FsError::LabelViolation));
}

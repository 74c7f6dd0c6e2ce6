use faasten_core::buckle::{Buckle, Clause, Component};
use faasten_core::fs::{
    Context, CreateKind, DirEntry, FS, FsError, Function, Gate, GateTarget, Service,
};
use faasten_core::interface::DentKind;

fn clause(paths: &[&[&str]]) -> Clause {
    Clause {
        principals: paths.iter().map(|p| p.iter().map(|t| t.to_string()).collect()).collect(),
    }
}

fn formula(clauses: &[&[&[&str]]]) -> Component {
    Component::DcFormula(clauses.iter().map(|c| clause(c)).collect())
}

fn public_ctx() -> Context {
    Context { label: Buckle::public(), privilege: Component::dc_true() }
}

fn func(name: &str) -> Function {
    Function {
        memory: 128,
        app_image: name.to_string(),
        runtime_image: "python".to_string(),
        kernel: "vmlinux".to_string(),
    }
}

#[test]
fn create_and_open_file() {
    let mut fs = FS::new();
    let ctx = public_ctx();
    let id = fs
        .create(&ctx, 0, "data".to_string(), Buckle::public(), CreateKind::File)
        .unwrap();
    assert_eq!(fs.open_name(0, &"data".to_string()), Ok(id));
    assert_eq!(fs.open_name(0, &"other".to_string()), Err(FsError::NotFound));
    assert_eq!(fs.open_name(id, &"x".to_string()), Err(FsError::WrongKind));
    assert_eq!(fs.open_name(99, &"x".to_string()), Err(FsError::NotFound));
}

#[test]
fn create_same_kind_converges_and_conflicts_across_kinds() {
    let mut fs = FS::new();
    let ctx = public_ctx();
    let id = fs
        .create(&ctx, 0, "slot".to_string(), Buckle::public(), CreateKind::File)
        .unwrap();
    // a second create of the same name and kind observes the first winner
    let again = fs
        .create(&ctx, 0, "slot".to_string(), Buckle::public(), CreateKind::File)
        .unwrap();
    assert_eq!(id, again);
    // an incompatible kind under the same name is a conflict
    assert_eq!(
        fs.create(&ctx, 0, "slot".to_string(), Buckle::public(), CreateKind::Directory),
        Err(FsError::NameConflict)
    );
}

#[test]
fn create_denied_by_label() {
    let mut fs = FS::new();
    // a secret context cannot place public data
    let secret_ctx = Context {
        label: Buckle::new(formula(&[&[&["alice"]]]), Component::dc_true()),
        privilege: Component::dc_true(),
    };
    assert_eq!(
        fs.create(&secret_ctx, 0, "f".to_string(), Buckle::public(), CreateKind::File),
        Err(FsError::LabelViolation)
    );
    // with alice's privilege the same create declassifies and succeeds
    let with_priv = Context { privilege: formula(&[&[&["alice"]]]), ..secret_ctx };
    assert!(
        fs.create(&with_priv, 0, "f".to_string(), Buckle::public(), CreateKind::File).is_ok()
    );
}

#[test]
fn write_and_read_file_and_blob_immutable() {
    let mut fs = FS::new();
    let ctx = public_ctx();
    let fid = fs
        .create(&ctx, 0, "f".to_string(), Buckle::public(), CreateKind::File)
        .unwrap();
    let bid = fs
        .create(&ctx, 0, "b".to_string(), Buckle::public(), CreateKind::Blob)
        .unwrap();
    assert_eq!(fs.write(&ctx, fid, b"hello".to_vec()), Ok(()));
    assert_eq!(fs.read(&ctx, fid).unwrap(), b"hello".to_vec());
    assert_eq!(fs.write(&ctx, bid, b"x".to_vec()), Err(FsError::Immutable));
    assert_eq!(fs.write(&ctx, 0, b"x".to_vec()), Err(FsError::WrongKind));
    assert_eq!(fs.write(&ctx, 99, b"x".to_vec()), Err(FsError::NotFound));
    // a secret file cannot be read by a public context
    let sid = fs
        .create(
            &ctx,
            0,
            "s".to_string(),
            Buckle::new(formula(&[&[&["alice"]]]), Component::dc_true()),
            CreateKind::File,
        )
        .unwrap();
    assert_eq!(fs.read(&ctx, sid), Err(FsError::LabelViolation));
}

#[test]
fn facet_privacy_indistinguishable() {
    let mut fs = FS::new();
    let ctx = public_ctx();
    let fd = fs
        .create(&ctx, 0, "faceted".to_string(), Buckle::public(), CreateKind::FacetedDirectory)
        .unwrap();
    let secret_facet = Buckle::new(formula(&[&[&["alice"]]]), Component::dc_true());
    // a public observer cannot dominate the secret facet: denied as absent
    assert_eq!(fs.open_facet(&ctx, fd, &secret_facet), Err(FsError::NotFound));
    // a dominating observer materializes the facet
    let alice_ctx = Context {
        label: Buckle::new(formula(&[&[&["alice"]]]), Component::dc_true()),
        privilege: Component::dc_true(),
    };
    let facet_id = fs.open_facet(&alice_ctx, fd, &secret_facet).unwrap();
    // the same open again yields the same facet, not a new one
    assert_eq!(fs.open_facet(&alice_ctx, fd, &secret_facet), Ok(facet_id));
    // the non-dominating observer sees exactly what it saw before
    assert_eq!(fs.open_facet(&ctx, fd, &secret_facet), Err(FsError::NotFound));
}

#[test]
fn facet_lookup_ignores_clause_order() {
    let mut fs = FS::new();
    let ctx = public_ctx();
    let fd = fs
        .create(&ctx, 0, "faceted".to_string(), Buckle::public(), CreateKind::FacetedDirectory)
        .unwrap();
    let ab = Buckle::new(formula(&[&[&["a"]], &[&["b"]]]), Component::dc_true());
    let ba = Buckle::new(formula(&[&[&["b"]], &[&["a"]]]), Component::dc_true());
    let strong_ctx = Context {
        label: Buckle::new(Component::dc_false(), Component::dc_true()),
        privilege: Component::dc_false(),
    };
    // label equality is the algebra's, so clause order cannot split a facet
    let id1 = fs.open_facet(&strong_ctx, fd, &ab).unwrap();
    let id2 = fs.open_facet(&strong_ctx, fd, &ba).unwrap();
    assert_eq!(id1, id2);
}

#[test]
fn redirect_chain_resolves_and_narrows() {
    let mut fs = FS::new();
    let ctx = public_ctx();
    let direct = Gate {
        privilege: formula(&[&[&["svc"]]]),
        invoker_integrity_clearance: Component::dc_true(),
        declassify: Component::dc_true(),
        target: GateTarget::Direct(func("app")),
    };
    let gid = fs
        .create(&ctx, 0, "g".to_string(), Buckle::public(), CreateKind::Gate(direct))
        .unwrap();
    let redirect = Gate {
        privilege: formula(&[&[&["other"]]]),
        invoker_integrity_clearance: Component::dc_true(),
        declassify: Component::dc_true(),
        target: GateTarget::Redirect(gid),
    };
    let rid = fs
        .create(&ctx, 0, "r".to_string(), Buckle::public(), CreateKind::Gate(redirect))
        .unwrap();
    let resolved = fs.resolve_gate(&ctx, rid).unwrap();
    assert_eq!(resolved.function.app_image, "app".to_string());
    // the effective privilege is the meet of the chain: it no longer
    // implies either single gate's own privilege alone
    assert!(formula(&[&[&["svc"]]]).implies(&resolved.privilege));
    assert!(!resolved.privilege.implies(&formula(&[&[&["svc"]]])));
}

#[test]
fn redirect_cycle_fails_bounded() {
    let mut fs = FS::new();
    let ctx = public_ctx();
    // g1 -> g2 -> g1: materialize the cycle by rewriting a placeholder
    let g1 = Gate {
        privilege: Component::dc_true(),
        invoker_integrity_clearance: Component::dc_true(),
        declassify: Component::dc_true(),
        target: GateTarget::Redirect(2),
    };
    let id1 = fs
        .create(&ctx, 0, "g1".to_string(), Buckle::public(), CreateKind::Gate(g1))
        .unwrap();
    let g2 = Gate {
        privilege: Component::dc_true(),
        invoker_integrity_clearance: Component::dc_true(),
        declassify: Component::dc_true(),
        target: GateTarget::Redirect(id1),
    };
    let id2 = fs
        .create(&ctx, 0, "g2".to_string(), Buckle::public(), CreateKind::Gate(g2))
        .unwrap();
    assert_eq!(id2, 2);
    assert!(matches!(fs.resolve_gate(&ctx, id1), Err(FsError::TooManyHops)));
    assert!(matches!(fs.resolve_gate(&ctx, id2), Err(FsError::TooManyHops)));
}

#[test]
fn gate_clearance_checked_at_every_hop() {
    let mut fs = FS::new();
    let ctx = public_ctx();
    let strict = Gate {
        privilege: Component::dc_true(),
        // requires an integrity the public caller does not have
        invoker_integrity_clearance: formula(&[&[&["auditor"]]]),
        declassify: Component::dc_true(),
        target: GateTarget::Direct(func("app")),
    };
    let gid = fs
        .create(&ctx, 0, "strict".to_string(), Buckle::public(), CreateKind::Gate(strict))
        .unwrap();
    let lax = Gate {
        privilege: Component::dc_true(),
        invoker_integrity_clearance: Component::dc_true(),
        declassify: Component::dc_true(),
        target: GateTarget::Redirect(gid),
    };
    let rid = fs
        .create(&ctx, 0, "lax".to_string(), Buckle::public(), CreateKind::Gate(lax))
        .unwrap();
    // the lax front gate cannot be used to bypass the strict hop
    assert!(matches!(fs.resolve_gate(&ctx, rid), Err(FsError::LabelViolation)));
    let auditor_ctx = Context {
        label: Buckle::new(Component::dc_true(), formula(&[&[&["auditor"]]])),
        privilege: Component::dc_true(),
    };
    assert!(fs.resolve_gate(&auditor_ctx, rid).is_ok());
}

#[test]
fn service_invocation_stamps_taint() {
    let mut fs = FS::new();
    let ctx = public_ctx();
    let svc = Service {
        privilege: Component::dc_true(),
        invoker_integrity_clearance: Component::dc_true(),
        taint: Buckle::new(formula(&[&[&["ext"]]]), Component::dc_true()),
        url: "https://example.test/api".to_string(),
        verb: 1,
        headers: vec![("accept".to_string(), "application/json".to_string())],
    };
    let sid = fs
        .create(&ctx, 0, "svc".to_string(), Buckle::public(), CreateKind::Service(svc))
        .unwrap();
    let inv = fs.invoke_service(&ctx, sid).unwrap();
    assert_eq!(inv.url, "https://example.test/api".to_string());
    assert_eq!(inv.verb, 1);
    // the result label carries at least the service's taint
    let taint = Buckle::new(formula(&[&[&["ext"]]]), Component::dc_true());
    assert!(taint.can_flow_to(&inv.result_label));
    assert!(matches!(fs.invoke_service(&ctx, 0), Err(FsError::WrongKind)));
}

#[test]
fn dent_kind_codes() {
    let mut fs = FS::new();
    let ctx = public_ctx();
    let fid = fs
        .create(&ctx, 0, "f".to_string(), Buckle::public(), CreateKind::File)
        .unwrap();
    assert_eq!(DentKind::from(&fs.dents[0].entry).into(), 0);
    assert_eq!(DentKind::from(&fs.dents[fid as usize].entry).into(), 1);
    let e = DirEntry::Blob(faasten_core::fs::Blob { data: vec![] });
    assert_eq!(DentKind::from(&e).into(), 5);
}

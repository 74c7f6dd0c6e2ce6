use faasten_core::buckle::{Buckle, Clause, Component};

fn path(tokens: &[&str]) -> Vec<String> {
    tokens.iter().map(|t| t.to_string()).collect()
}

fn clause(paths: &[&[&str]]) -> Clause {
    Clause { principals: paths.iter().map(|p| path(p)).collect() }
}

fn formula(clauses: &[&[&[&str]]]) -> Component {
    Component::DcFormula(clauses.iter().map(|c| clause(c)).collect())
}

fn comp_eq(a: &Component, b: &Component) -> bool {
    a.implies(b) && b.implies(a)
}

#[test]
fn implies_reflexive_and_false_cases() {
    let amit = formula(&[&[&["Amit"]]]);
    assert!(amit.implies(&amit));
    assert!(Component::dc_false().implies(&amit));
    assert!(Component::dc_false().implies(&Component::dc_true()));
    assert!(!Component::dc_true().implies(&Component::dc_false()));
    assert!(!amit.implies(&Component::dc_false()));
    assert!(amit.implies(&Component::dc_true()));
    assert!(!Component::dc_true().implies(&amit));
}

#[test]
fn prefix_paths_speak_for_longer_paths() {
    let yue = formula(&[&[&["Yue"]]]);
    let yue_hello = formula(&[&[&["Yue", "hello"]]]);
    assert!(yue.implies(&yue_hello));
    assert!(!yue_hello.implies(&yue));
}

#[test]
fn superset_formula_implies_subset() {
    let both = formula(&[&[&["Amit"]], &[&["Yue"]]]);
    let amit = formula(&[&[&["Amit"]]]);
    assert!(both.implies(&amit));
    assert!(!amit.implies(&both));
}

#[test]
fn join_laws_on_concrete_values() {
    let a = formula(&[&[&["a"]]]);
    let b = formula(&[&[&["b"]], &[&["c", "d"]]]);
    let c = Component::dc_false();
    let ab_c = a.join(&b).join(&c);
    let a_bc = a.join(&b.join(&c));
    assert!(comp_eq(&ab_c, &a_bc));
    assert!(comp_eq(&a.join(&b), &b.join(&a)));
    assert!(comp_eq(&a.join(&a), &a));
    let d = formula(&[&[&["d"]]]);
    let ab = a.join(&d);
    let ba = d.join(&a);
    assert!(comp_eq(&ab, &ba));
}

#[test]
fn meet_laws_on_concrete_values() {
    let a = formula(&[&[&["a"]], &[&["x"]]]);
    let b = formula(&[&[&["b"]]]);
    let c = formula(&[&[&["c"]]]);
    let ab_c = a.meet(&b).meet(&c);
    let a_bc = a.meet(&b.meet(&c));
    assert!(comp_eq(&ab_c, &a_bc));
    assert!(comp_eq(&a.meet(&b), &b.meet(&a)));
    assert!(comp_eq(&a.meet(&a), &a));
    // the unreachable element is the identity of the meet
    assert!(comp_eq(&a.meet(&Component::dc_false()), &a));
    assert!(comp_eq(&Component::dc_false().meet(&a), &a));
}

#[test]
fn flow_without_privilege_requires_domination() {
    let secret = Buckle::new(
        Component::DcFormula(vec![clause(&[&["alice"]])]),
        Component::dc_true(),
    );
    let public = Buckle::public();
    // public data may flow up to the secret context, not down
    assert!(public.can_flow_to(&secret));
    assert!(!secret.can_flow_to(&public));
}

#[test]
fn declassification_requires_privilege() {
    let secret = Buckle::new(
        Component::DcFormula(vec![clause(&[&["alice"]])]),
        Component::dc_true(),
    );
    let public = Buckle::public();
    // the unreachable element as a privilege grants nothing
    assert!(!secret.can_flow_to_with_privilege(&public, &Component::dc_false()));
    // neither does the empty privilege
    assert!(!secret.can_flow_to_with_privilege(&public, &Component::dc_true()));
    // the clause-covering privilege discharges the secrecy clause
    let alice_priv = formula(&[&[&["alice"]]]);
    assert!(secret.can_flow_to_with_privilege(&public, &alice_priv));
}

#[test]
fn flow_monotone_in_the_target() {
    let src = Buckle::new(formula(&[&[&["a"]]]), Component::dc_true());
    let mid = Buckle::new(formula(&[&[&["a"]], &[&["b"]]]), Component::dc_true());
    let top = Buckle::new(Component::dc_false(), Component::dc_true());
    assert!(src.can_flow_to(&mid));
    assert!(mid.can_flow_to(&top));
    // raising the bound never revokes the granted flow
    assert!(src.can_flow_to(&top));
}

#[test]
fn lub_joins_secrecy_and_meets_integrity() {
    let a = Buckle::new(formula(&[&[&["a"]]]), formula(&[&[&["ia"]]]));
    let b = Buckle::new(formula(&[&[&["b"]]]), formula(&[&[&["ib"]]]));
    let l = a.lub(&b);
    // combined data can flow wherever both sources could
    assert!(a.can_flow_to(&l));
    assert!(b.can_flow_to(&l));
    assert!(!l.can_flow_to(&a));
}

#[test]
fn algebra_matches_reference_dclabel_crate() {
    // order-independence against the reference label algebra
    let ours = formula(&[&[&["Amit"]], &[&["Yue"]]]);
    let theirs = labeled::buckle::Component::formula([["Amit"], ["Yue"]]);
    let sub_ours = formula(&[&[&["Amit"]]]);
    let sub_theirs = labeled::buckle::Component::formula([["Amit"]]);
    assert_eq!(ours.implies(&sub_ours), theirs.implies(&sub_theirs));
    assert_eq!(sub_ours.implies(&ours), sub_theirs.implies(&theirs));
    assert_eq!(
        Component::dc_false().implies(&ours),
        labeled::buckle::Component::dc_false().implies(&theirs)
    );
}

//! The label algebra: components are DNF-style formulas over hierarchical
//! principal paths, or the unreachable element; a label (`Buckle`) pairs a
//! secrecy component with an integrity component.
//!
//! The mathematical model of a component is `Option<Set<Set<Seq<Seq<char>>>>>`:
//! `None` stands for the unreachable element, `Some(f)` for a formula, a set
//! of clauses, each clause a set of principal paths, each path a sequence of
//! name tokens.  Clause sets and path sets are unordered and conceptually
//! deduplicated: every contract below is stated over this set model, so the
//! order and multiplicity of the underlying vectors never matters.

use vstd::prelude::*;

verus! {

/// A principal path in the model: a sequence of name tokens.
pub type PathV = Seq<Seq<char>>;

/// A clause in the model: a set of principal paths, read as a conjunction.
pub type ClauseV = Set<PathV>;

/// A formula in the model: a set of clauses, read as a disjunction.
pub type FormulaV = Set<ClauseV>;

/// A component in the model: `None` is the unreachable element.
pub type ComponentV = Option<FormulaV>;

/// A conjunction of principal paths.  A principal path is an ordered list of
/// name tokens; a shorter path speaks for every path it is a prefix of.
pub struct Clause {
    pub principals: Vec<Vec<String>>,
}

impl View for Clause {
    type V = ClauseV;

    open spec fn view(&self) -> ClauseV {
        self.principals.deep_view().to_set()
    }
}

/// One side (secrecy or integrity) of a label: either the unreachable
/// element, which no set of principals can truthfully assert, or a
/// disjunction of clauses.
pub enum Component {
    DcFalse,
    DcFormula(Vec<Clause>),
}

/// The set of clause views of a clause vector.
pub open spec fn formula_view(cs: Seq<Clause>) -> FormulaV {
    cs.map_values(|c: Clause| c@).to_set()
}

impl View for Component {
    type V = ComponentV;

    open spec fn view(&self) -> ComponentV {
        match self {
            Component::DcFalse => None,
            Component::DcFormula(cs) => Some(formula_view(cs@)),
        }
    }
}

/// A label: a secrecy component and an integrity component.
pub struct Buckle {
    pub secrecy: Component,
    pub integrity: Component,
}

/// The model of a label.
pub struct BuckleV {
    pub secrecy: ComponentV,
    pub integrity: ComponentV,
}

impl View for Buckle {
    type V = BuckleV;

    open spec fn view(&self) -> BuckleV {
        BuckleV { secrecy: self.secrecy@, integrity: self.integrity@ }
    }
}

/// `p` speaks for `q`: `p` is a prefix of `q`.
pub open spec fn path_prefix_of(p: PathV, q: PathV) -> bool {
    p.len() <= q.len() && forall|i: int| 0 <= i < p.len() ==> p[i] == q[i]
}

/// Path `p` is vouched for inside clause `d`: it is a prefix of some path
/// of `d`.
pub open spec fn path_matched(d: ClauseV, p: PathV) -> bool {
    exists|q: PathV| #[trigger] d.contains(q) && path_prefix_of(p, q)
}

/// Clause `c` implies clause `d`: every path of `c` is vouched for inside
/// `d`.  The empty clause implies everything.
pub open spec fn clause_implies(c: ClauseV, d: ClauseV) -> bool {
    c.is_empty() || (!d.is_empty() && forall|p: PathV| #[trigger] c.contains(p)
        ==> path_matched(d, p))
}

/// A clause `c` is covered by the formula `p` when some clause of `p`
/// implies it.
pub open spec fn clause_covered(c: ClauseV, p: FormulaV) -> bool {
    exists|q: ClauseV| #[trigger] p.contains(q) && clause_implies(q, c)
}

/// Formula `s` implies formula `o`: every clause of `o` is covered by some
/// clause of `s`.
pub open spec fn formula_implies(s: FormulaV, o: FormulaV) -> bool {
    forall|oc: ClauseV| #[trigger] o.contains(oc) ==> clause_covered(oc, s)
}

/// Component implication: the unreachable element implies everything and is
/// implied by nothing else; formulas are compared by clause coverage.
pub open spec fn comp_implies(a: ComponentV, b: ComponentV) -> bool {
    match (a, b) {
        (None, _) => true,
        (Some(_), None) => false,
        (Some(s), Some(o)) => formula_implies(s, o),
    }
}

/// Join (used on secrecy): the conjunction of two components.  Combining
/// data from two sources, confidentiality requirements accumulate.
pub open spec fn spec_join(a: ComponentV, b: ComponentV) -> ComponentV {
    match (a, b) {
        (None, _) => None,
        (_, None) => None,
        (Some(s), Some(o)) => Some(s.union(o)),
    }
}

/// All pairwise unions of a clause of `s` with a clause of `o`.
pub open spec fn cross_union(s: FormulaV, o: FormulaV) -> FormulaV {
    Set::new(|c: ClauseV| exists|c1: ClauseV, c2: ClauseV|
        s.contains(c1) && o.contains(c2) && c == #[trigger] c1.union(c2))
}

/// Meet (used on integrity): the disjunction of two components; the weaker
/// guarantee wins.  The unreachable element is its identity.
pub open spec fn spec_meet(a: ComponentV, b: ComponentV) -> ComponentV {
    match (a, b) {
        (None, _) => b,
        (_, None) => a,
        (Some(s), Some(o)) => Some(cross_union(s, o)),
    }
}

/// Declassification: a privilege removes the secrecy clauses it covers.
/// The unreachable element holds no clauses, so as a privilege it removes
/// nothing, and as a subject it stays unreachable.
pub open spec fn spec_declassify(a: ComponentV, p: ComponentV) -> ComponentV {
    match (a, p) {
        (None, _) => None,
        (Some(s), None) => Some(s),
        (Some(s), Some(pcs)) => Some(s.filter(|c: ClauseV| !clause_covered(c, pcs))),
    }
}

/// Endorsement: a privilege formula adds its clauses to the integrity
/// guarantee; the unreachable element endorses nothing.
pub open spec fn spec_endorse(i: ComponentV, p: ComponentV) -> ComponentV {
    match p {
        None => i,
        Some(_) => spec_join(i, p),
    }
}

/// Flow with no privilege: the target's secrecy must assert at least the
/// source's, and the source's integrity must assert at least the target's.
pub open spec fn can_flow_plain(l1: BuckleV, l2: BuckleV) -> bool {
    comp_implies(l2.secrecy, l1.secrecy) && comp_implies(l1.integrity, l2.integrity)
}

/// Flow under a privilege: the privilege first declassifies the source's
/// secrecy and endorses the source's integrity.
pub open spec fn can_flow_v(l1: BuckleV, l2: BuckleV, p: ComponentV) -> bool {
    comp_implies(l2.secrecy, spec_declassify(l1.secrecy, p))
        && comp_implies(spec_endorse(l1.integrity, p), l2.integrity)
}

/// The algebra's own equality on components: mutual implication.  It ignores
/// clause order, duplicates, and subsumed clauses.
pub open spec fn comp_equiv(a: ComponentV, b: ComponentV) -> bool {
    comp_implies(a, b) && comp_implies(b, a)
}

/// The algebra's own equality on labels.
pub open spec fn buckle_equiv(a: BuckleV, b: BuckleV) -> bool {
    comp_equiv(a.secrecy, b.secrecy) && comp_equiv(a.integrity, b.integrity)
}

fn clone_path(p: &Vec<String>) -> (r: Vec<String>)
    ensures
        r.deep_view() == p.deep_view(),
        r@.len() == p@.len(),
{
    let mut r: Vec<String> = Vec::new();
    for i in 0..p.len()
        invariant
            r@.len() == i,
            forall|k: int| 0 <= k < i ==> r@[k]@ == #[trigger] p@[k]@,
    {
        r.push(p[i].clone());
    }
    proof {
        assert(r.deep_view() =~= p.deep_view());
    }
    r
}

fn clone_paths(ps: &Vec<Vec<String>>) -> (r: Vec<Vec<String>>)
    ensures
        r.deep_view() == ps.deep_view(),
        r@.len() == ps@.len(),
{
    let mut r: Vec<Vec<String>> = Vec::new();
    for i in 0..ps.len()
        invariant
            r@.len() == i,
            forall|k: int| 0 <= k < i ==> r@[k].deep_view() == #[trigger] ps@[k].deep_view(),
    {
        r.push(clone_path(&ps[i]));
    }
    proof {
        assert(r.deep_view() =~= ps.deep_view());
    }
    r
}

impl Clause {
    /// The clause with no paths: the conjunction of nothing, which every
    /// clause implies.
    pub fn empty() -> (r: Clause)
        ensures
            r@ == Set::<PathV>::empty(),
    {
        let r = Clause { principals: Vec::new() };
        proof {
            assert(r@ =~= Set::<PathV>::empty());
        }
        r
    }

    pub fn duplicate(&self) -> (r: Clause)
        ensures
            r@ == self@,
            r.principals.deep_view() == self.principals.deep_view(),
    {
        Clause { principals: clone_paths(&self.principals) }
    }

    /// Whether `self` implies `other` in the clause order.
    pub fn implies(&self, other: &Clause) -> (r: bool)
        ensures
            r == clause_implies(self@, other@),
    {
        if self.principals.len() == 0 {
            proof {
                assert(self@.is_empty());
            }
            return true;
        }
        proof {
            assert(self.principals.deep_view()[0] == self.principals@[0].deep_view());
            assert(self@.contains(self.principals.deep_view()[0]));
        }
        if other.principals.len() == 0 {
            proof {
                assert forall|q: PathV| !(#[trigger] other@.contains(q)) by {
                    if other@.contains(q) {
                        let j = choose|j: int|
                            0 <= j < other.principals.deep_view().len()
                                && other.principals.deep_view()[j] == q;
                    }
                }
                assert(other@.is_empty());
            }
            return false;
        }
        proof {
            assert(other.principals.deep_view()[0] == other.principals@[0].deep_view());
            assert(other@.contains(other.principals.deep_view()[0]));
            assert(!other@.is_empty());
        }
        let n = self.principals.len();
        for i in 0..n
            invariant
                n == self.principals.len(),
                other.principals.len() > 0,
                !other@.is_empty(),
                forall|k: int| 0 <= k < i
                    ==> path_matched(other@, #[trigger] self.principals.deep_view()[k]),
        {
            if !clause_has_superpath(other, &self.principals[i]) {
                proof {
                    let p = self.principals.deep_view()[i as int];
                    assert(self.principals.deep_view()[i as int]
                        == self.principals@[i as int].deep_view());
                    assert(self@.contains(p));
                    assert(!self@.is_empty());
                    assert(!clause_implies(self@, other@));
                }
                return false;
            }
        }
        proof {
            assert forall|p: PathV| #[trigger] self@.contains(p)
                implies path_matched(other@, p) by {
                let k = choose|k: int|
                    0 <= k < self.principals.deep_view().len()
                        && self.principals.deep_view()[k] == p;
            }
        }
        true
    }
}

/// Whether `p` is a prefix of `q`, token for token.
fn path_prefix(p: &Vec<String>, q: &Vec<String>) -> (r: bool)
    ensures
        r == path_prefix_of(p.deep_view(), q.deep_view()),
{
    if p.len() > q.len() {
        return false;
    }
    let n = p.len();
    for i in 0..n
        invariant
            n == p.len(),
            p.len() <= q.len(),
            forall|k: int| 0 <= k < i ==> p.deep_view()[k] == q.deep_view()[k],
    {
        if !(p[i] == q[i]) {
            proof {
                assert(p.deep_view()[i as int] == p@[i as int]@);
                assert(q.deep_view()[i as int] == q@[i as int]@);
            }
            return false;
        }
        proof {
            assert(p.deep_view()[i as int] == q.deep_view()[i as int]);
        }
    }
    true
}

/// Whether some path of `c` has `p` as a prefix.
fn clause_has_superpath(c: &Clause, p: &Vec<String>) -> (r: bool)
    ensures
        r == path_matched(c@, p.deep_view()),
{
    let n = c.principals.len();
    for j in 0..n
        invariant
            n == c.principals.len(),
            forall|k: int| 0 <= k < j
                ==> !path_prefix_of(p.deep_view(), c.principals.deep_view()[k]),
    {
        if path_prefix(p, &c.principals[j]) {
            proof {
                assert(c.principals.deep_view()[j as int]
                    == c.principals@[j as int].deep_view());
                assert(c@.contains(c.principals.deep_view()[j as int]));
            }
            return true;
        }
    }
    proof {
        assert forall|q: PathV| #[trigger] c@.contains(q)
            implies !path_prefix_of(p.deep_view(), q) by {
            let k = choose|k: int|
                0 <= k < c.principals.deep_view().len() && c.principals.deep_view()[k] == q;
        }
    }
    false
}

/// Whether some clause of `s` implies `oc`.
fn formula_has_implying_clause(s: &Vec<Clause>, oc: &Clause) -> (r: bool)
    ensures
        r == clause_covered(oc@, formula_view(s@)),
{
    let n = s.len();
    for j in 0..n
        invariant
            n == s.len(),
            forall|k: int| 0 <= k < j ==> !clause_implies(s@[k]@, oc@),
    {
        if s[j].implies(oc) {
            proof {
                let m = s@.map_values(|c: Clause| c@);
                assert(m[j as int] == s@[j as int]@);
                assert(formula_view(s@).contains(s@[j as int]@));
            }
            return true;
        }
    }
    proof {
        let m = s@.map_values(|c: Clause| c@);
        assert forall|q: ClauseV| #[trigger] formula_view(s@).contains(q)
            implies !clause_implies(q, oc@) by {
            let k = choose|k: int| 0 <= k < m.len() && m[k] == q;
            assert(m[k] == s@[k]@);
        }
    }
    false
}

proof fn lemma_formula_view_concat(a: Seq<Clause>, b: Seq<Clause>)
    ensures
        formula_view(a + b) == formula_view(a).union(formula_view(b)),
{
    let ma = a.map_values(|c: Clause| c@);
    let mb = b.map_values(|c: Clause| c@);
    let mab = (a + b).map_values(|c: Clause| c@);
    assert(mab =~= ma + mb);
    assert forall|x: ClauseV| #[trigger] formula_view(a + b).contains(x)
        implies formula_view(a).union(formula_view(b)).contains(x) by {
        let k = choose|k: int| 0 <= k < mab.len() && mab[k] == x;
        if k < a.len() {
            assert(ma[k] == x);
        } else {
            assert(mb[k - a.len()] == x);
        }
    }
    assert forall|x: ClauseV| #[trigger] formula_view(a).union(formula_view(b)).contains(x)
        implies formula_view(a + b).contains(x) by {
        if formula_view(a).contains(x) {
            let k = choose|k: int| 0 <= k < ma.len() && ma[k] == x;
            assert(mab[k] == x);
        } else {
            let k = choose|k: int| 0 <= k < mb.len() && mb[k] == x;
            assert(mab[a.len() + k] == x);
        }
    }
    assert(formula_view(a + b) =~= formula_view(a).union(formula_view(b)));
}

fn clone_clauses(s: &Vec<Clause>) -> (r: Vec<Clause>)
    ensures
        r@.len() == s@.len(),
        forall|k: int| 0 <= k < s@.len() ==> r@[k]@ == #[trigger] s@[k]@,
        formula_view(r@) == formula_view(s@),
{
    let mut r: Vec<Clause> = Vec::new();
    let n = s.len();
    for i in 0..n
        invariant
            n == s.len(),
            r@.len() == i,
            forall|k: int| 0 <= k < i ==> r@[k]@ == #[trigger] s@[k]@,
    {
        r.push(s[i].duplicate());
    }
    proof {
        let mr = r@.map_values(|c: Clause| c@);
        let ms = s@.map_values(|c: Clause| c@);
        assert(mr =~= ms);
    }
    r
}

impl Component {
    /// The formula with no clauses: asserted by everyone, restricts nothing.
    pub fn dc_true() -> (r: Component)
        ensures
            r@ == Some(Set::<ClauseV>::empty()),
    {
        let r = Component::DcFormula(Vec::new());
        proof {
            let e: Seq<Clause> = Seq::empty();
            assert(formula_view(e) =~= Set::<ClauseV>::empty());
        }
        r
    }

    /// The unreachable element.
    pub fn dc_false() -> (r: Component)
        ensures
            r@ == None::<FormulaV>,
    {
        Component::DcFalse
    }

    pub fn is_false(&self) -> (r: bool)
        ensures
            r == (self@ == None::<FormulaV>),
    {
        match self {
            Component::DcFalse => true,
            Component::DcFormula(_) => false,
        }
    }

    pub fn duplicate(&self) -> (r: Component)
        ensures
            r@ == self@,
    {
        match self {
            Component::DcFalse => Component::DcFalse,
            Component::DcFormula(cs) => Component::DcFormula(clone_clauses(cs)),
        }
    }

    /// Component implication: the subsumption order of the algebra.
    pub fn implies(&self, other: &Component) -> (r: bool)
        ensures
            r == comp_implies(self@, other@),
    {
        match (self, other) {
            (Component::DcFalse, _) => true,
            (Component::DcFormula(_), Component::DcFalse) => false,
            (Component::DcFormula(s), Component::DcFormula(o)) => {
                let n = o.len();
                for i in 0..n
                    invariant
                        n == o.len(),
                        self@ == Some(formula_view(s@)),
                        other@ == Some(formula_view(o@)),
                        forall|k: int| 0 <= k < i
                            ==> clause_covered(#[trigger] o@[k]@, formula_view(s@)),
                {
                    if !formula_has_implying_clause(s, &o[i]) {
                        proof {
                            let mo = o@.map_values(|c: Clause| c@);
                            assert(mo[i as int] == o@[i as int]@);
                            assert(formula_view(o@).contains(o@[i as int]@));
                            assert(!clause_covered(o@[i as int]@, formula_view(s@)));
                            assert(!formula_implies(formula_view(s@), formula_view(o@)));
                            assert(self@ == Some(formula_view(s@)));
                            assert(other@ == Some(formula_view(o@)));
                        }
                        return false;
                    }
                }
                proof {
                    let mo = o@.map_values(|c: Clause| c@);
                    assert forall|oc: ClauseV| #[trigger] formula_view(o@).contains(oc)
                        implies clause_covered(oc, formula_view(s@)) by {
                        let k = choose|k: int| 0 <= k < mo.len() && mo[k] == oc;
                        assert(mo[k] == o@[k]@);
                    }
                }
                true
            },
        }
    }

    /// The join of two components, under which confidentiality accumulates.
    pub fn join(&self, other: &Component) -> (r: Component)
        ensures
            r@ == spec_join(self@, other@),
    {
        match (self, other) {
            (Component::DcFalse, _) => Component::DcFalse,
            (_, Component::DcFalse) => Component::DcFalse,
            (Component::DcFormula(s), Component::DcFormula(o)) => {
                let mut cs = clone_clauses(s);
                let mut os = clone_clauses(o);
                let ghost cs0 = cs@;
                let ghost os0 = os@;
                cs.append(&mut os);
                proof {
                    lemma_formula_view_concat(cs0, os0);
                }
                Component::DcFormula(cs)
            },
        }
    }

    /// The meet of two components, under which the weaker integrity
    /// guarantee wins.
    pub fn meet(&self, other: &Component) -> (r: Component)
        ensures
            r@ == spec_meet(self@, other@),
    {
        match (self, other) {
            (Component::DcFalse, _) => other.duplicate(),
            (Component::DcFormula(_), Component::DcFalse) => self.duplicate(),
            (Component::DcFormula(s), Component::DcFormula(o)) => {
                let mut res: Vec<Clause> = Vec::new();
                let n = s.len();
                for i in 0..n
                    invariant
                        n == s.len(),
                        self@ == Some(formula_view(s@)),
                        other@ == Some(formula_view(o@)),
                        forall|k: int| 0 <= k < res@.len()
                            ==> cross_union(formula_view(s@), formula_view(o@)).contains(
                                #[trigger] res@[k]@),
                        forall|ki: int, kj: int| 0 <= ki < i && 0 <= kj < o@.len()
                            ==> #[trigger] pair_present(res@, s@, o@, ki, kj),
                {
                    let m = o.len();
                    for j in 0..m
                        invariant
                            n == s.len(),
                            m == o.len(),
                            0 <= i < n,
                            forall|k: int| 0 <= k < res@.len()
                                ==> cross_union(formula_view(s@), formula_view(o@)).contains(
                                    #[trigger] res@[k]@),
                            forall|ki: int, kj: int| 0 <= ki < i && 0 <= kj < o@.len()
                                ==> #[trigger] pair_present(res@, s@, o@, ki, kj),
                            forall|kj: int| 0 <= kj < j
                                ==> #[trigger] pair_present(res@, s@, o@, i as int, kj),
                    {
                        let u = clause_union(&s[i], &o[j]);
                        proof {
                            let ms = s@.map_values(|c: Clause| c@);
                            let mo = o@.map_values(|c: Clause| c@);
                            assert(ms[i as int] == s@[i as int]@);
                            assert(mo[j as int] == o@[j as int]@);
                            assert(formula_view(s@).contains(s@[i as int]@));
                            assert(formula_view(o@).contains(o@[j as int]@));
                            assert(cross_union(formula_view(s@), formula_view(o@)).contains(u@));
                        }
                        let ghost prev = res@;
                        res.push(u);
                        proof {
                            assert(res@[prev.len() as int]@ == s@[i as int]@.union(o@[j as int]@));
                            assert(pair_present(res@, s@, o@, i as int, j as int));
                            assert forall|ki: int, kj: int|
                                pair_present(prev, s@, o@, ki, kj)
                                implies #[trigger] pair_present(res@, s@, o@, ki, kj) by {
                                let k0 = choose|k0: int| 0 <= k0 < prev.len()
                                    && prev[k0]@ == s@[ki]@.union(o@[kj]@);
                                assert(res@[k0]@ == s@[ki]@.union(o@[kj]@));
                            }
                        }
                    }
                }
                proof {
                    lemma_cross_membership(s@, o@, res@);
                }
                Component::DcFormula(res)
            },
        }
    }

    /// Removes every clause that the privilege covers; called on secrecy.
    pub fn declassify(&self, privilege: &Component) -> (r: Component)
        ensures
            r@ == spec_declassify(self@, privilege@),
    {
        match (self, privilege) {
            (Component::DcFalse, _) => Component::DcFalse,
            (Component::DcFormula(_), Component::DcFalse) => self.duplicate(),
            (Component::DcFormula(s), Component::DcFormula(pcs)) => {
                let mut out: Vec<Clause> = Vec::new();
                let n = s.len();
                for i in 0..n
                    invariant
                        n == s.len(),
                        self@ == Some(formula_view(s@)),
                        privilege@ == Some(formula_view(pcs@)),
                        forall|k: int| 0 <= k < out@.len()
                            ==> formula_view(s@).contains(#[trigger] out@[k]@)
                                && !clause_covered(out@[k]@, formula_view(pcs@)),
                        forall|ki: int| 0 <= ki < i && !clause_covered(#[trigger] s@[ki]@,
                            formula_view(pcs@))
                            ==> exists|k: int| 0 <= k < out@.len() && out@[k]@ == s@[ki]@,
                {
                    if !formula_has_implying_clause(pcs, &s[i]) {
                        proof {
                            let ms = s@.map_values(|c: Clause| c@);
                            assert(ms[i as int] == s@[i as int]@);
                            assert(formula_view(s@).contains(s@[i as int]@));
                        }
                        let ghost prev = out@;
                        out.push(s[i].duplicate());
                        proof {
                            assert(out@[prev.len() as int]@ == s@[i as int]@);
                            assert forall|ki: int| 0 <= ki < i + 1 && !clause_covered(
                                #[trigger] s@[ki]@, formula_view(pcs@))
                                implies exists|k: int| 0 <= k < out@.len() && out@[k]@ == s@[ki]@ by {
                                if ki < i {
                                    let k0 = choose|k0: int| 0 <= k0 < prev.len()
                                        && prev[k0]@ == s@[ki]@;
                                    assert(out@[k0]@ == s@[ki]@);
                                }
                            }
                        }
                    }
                }
                proof {
                    let target = formula_view(s@).filter(|c: ClauseV|
                        !clause_covered(c, formula_view(pcs@)));
                    let mo = out@.map_values(|c: Clause| c@);
                    let ms = s@.map_values(|c: Clause| c@);
                    assert forall|x: ClauseV| #[trigger] formula_view(out@).contains(x)
                        implies target.contains(x) by {
                        let k = choose|k: int| 0 <= k < mo.len() && mo[k] == x;
                        assert(mo[k] == out@[k]@);
                    }
                    assert forall|x: ClauseV| #[trigger] target.contains(x)
                        implies formula_view(out@).contains(x) by {
                        let ki = choose|ki: int| 0 <= ki < ms.len() && ms[ki] == x;
                        assert(ms[ki] == s@[ki]@);
                        let k = choose|k: int| 0 <= k < out@.len() && out@[k]@ == s@[ki]@;
                        assert(mo[k] == x);
                    }
                    assert(formula_view(out@) =~= target);
                }
                Component::DcFormula(out)
            },
        }
    }

    /// Adds the privilege's clauses to an integrity guarantee.
    pub fn endorse(&self, privilege: &Component) -> (r: Component)
        ensures
            r@ == spec_endorse(self@, privilege@),
    {
        match privilege {
            Component::DcFalse => self.duplicate(),
            Component::DcFormula(_) => self.join(privilege),
        }
    }
}

/// The vector `res` holds a clause equal to the union of the `ki`-th clause
/// of `s` and the `kj`-th clause of `o`.
pub open spec fn pair_present(res: Seq<Clause>, s: Seq<Clause>, o: Seq<Clause>, ki: int, kj: int) -> bool {
    exists|k: int| 0 <= k < res.len() && #[trigger] res[k]@ == s[ki]@.union(o[kj]@)
}

/// The union of two clauses: the conjunction of both path sets.
fn clause_union(a: &Clause, b: &Clause) -> (r: Clause)
    ensures
        r@ == a@.union(b@),
{
    let mut ps = clone_paths(&a.principals);
    let mut qs = clone_paths(&b.principals);
    let ghost ps0 = ps.deep_view();
    let ghost qs0 = qs.deep_view();
    ps.append(&mut qs);
    proof {
        assert(ps.deep_view() =~= ps0 + qs0);
        let cat = ps0 + qs0;
        assert forall|x: PathV| #[trigger] cat.to_set().contains(x)
            implies ps0.to_set().union(qs0.to_set()).contains(x) by {
            let k = choose|k: int| 0 <= k < cat.len() && cat[k] == x;
            if k < ps0.len() {
                assert(ps0[k] == x);
            } else {
                assert(qs0[k - ps0.len()] == x);
            }
        }
        assert forall|x: PathV| #[trigger] ps0.to_set().union(qs0.to_set()).contains(x)
            implies cat.to_set().contains(x) by {
            if ps0.to_set().contains(x) {
                let k = choose|k: int| 0 <= k < ps0.len() && ps0[k] == x;
                assert(cat[k] == x);
            } else {
                let k = choose|k: int| 0 <= k < qs0.len() && qs0[k] == x;
                assert(cat[ps0.len() + k] == x);
            }
        }
        assert(cat.to_set() =~= ps0.to_set().union(qs0.to_set()));
    }
    Clause { principals: ps }
}

proof fn lemma_cross_membership(s: Seq<Clause>, o: Seq<Clause>, res: Seq<Clause>)
    requires
        forall|k: int| 0 <= k < res.len()
            ==> cross_union(formula_view(s), formula_view(o)).contains(#[trigger] res[k]@),
        forall|ki: int, kj: int| 0 <= ki < s.len() && 0 <= kj < o.len()
            ==> #[trigger] pair_present(res, s, o, ki, kj),
    ensures
        formula_view(res) == cross_union(formula_view(s), formula_view(o)),
{
    let mr = res.map_values(|c: Clause| c@);
    let ms = s.map_values(|c: Clause| c@);
    let mo = o.map_values(|c: Clause| c@);
    assert forall|x: ClauseV| #[trigger] formula_view(res).contains(x)
        implies cross_union(formula_view(s), formula_view(o)).contains(x) by {
        let k = choose|k: int| 0 <= k < mr.len() && mr[k] == x;
        assert(mr[k] == res[k]@);
    }
    assert forall|x: ClauseV| #[trigger] cross_union(formula_view(s), formula_view(o)).contains(x)
        implies formula_view(res).contains(x) by {
        let (c1, c2) = choose|c1: ClauseV, c2: ClauseV|
            formula_view(s).contains(c1) && formula_view(o).contains(c2) && x == c1.union(c2);
        let ki = choose|ki: int| 0 <= ki < ms.len() && ms[ki] == c1;
        let kj = choose|kj: int| 0 <= kj < mo.len() && mo[kj] == c2;
        assert(ms[ki] == s[ki]@);
        assert(mo[kj] == o[kj]@);
        assert(pair_present(res, s, o, ki, kj));
        let k = choose|k: int| 0 <= k < res.len() && #[trigger] res[k]@ == s[ki]@.union(o[kj]@);
        assert(mr[k] == x);
    }
    assert(formula_view(res) =~= cross_union(formula_view(s), formula_view(o)));
}

impl Buckle {
    pub fn new(secrecy: Component, integrity: Component) -> (r: Buckle)
        ensures
            r@.secrecy == secrecy@,
            r@.integrity == integrity@,
    {
        Buckle { secrecy, integrity }
    }

    /// The public label: no secrecy restriction, no integrity guarantee.
    pub fn public() -> (r: Buckle)
        ensures
            r@.secrecy == Some(Set::<ClauseV>::empty()),
            r@.integrity == Some(Set::<ClauseV>::empty()),
    {
        Buckle { secrecy: Component::dc_true(), integrity: Component::dc_true() }
    }

    pub fn duplicate(&self) -> (r: Buckle)
        ensures
            r@ == self@,
    {
        Buckle { secrecy: self.secrecy.duplicate(), integrity: self.integrity.duplicate() }
    }

    /// Whether data labeled `self` may be observed at a context enforcing
    /// `rhs`, with no privilege.
    pub fn can_flow_to(&self, rhs: &Buckle) -> (r: bool)
        ensures
            r == can_flow_plain(self@, rhs@),
    {
        rhs.secrecy.implies(&self.secrecy) && self.integrity.implies(&rhs.integrity)
    }

    /// Whether data labeled `self` may be observed at a context enforcing
    /// `rhs` once the privilege's grant is applied.
    pub fn can_flow_to_with_privilege(&self, rhs: &Buckle, privilege: &Component) -> (r: bool)
        ensures
            r == can_flow_v(self@, rhs@, privilege@),
    {
        let declassified = self.secrecy.declassify(privilege);
        let endorsed = self.integrity.endorse(privilege);
        rhs.secrecy.implies(&declassified) && endorsed.implies(&rhs.integrity)
    }

    /// The least upper bound of two labels: the label of data combined from
    /// both sources.
    pub fn lub(&self, rhs: &Buckle) -> (r: Buckle)
        ensures
            r@.secrecy == spec_join(self@.secrecy, rhs@.secrecy),
            r@.integrity == spec_meet(self@.integrity, rhs@.integrity),
    {
        Buckle {
            secrecy: self.secrecy.join(&rhs.secrecy),
            integrity: self.integrity.meet(&rhs.integrity),
        }
    }

    /// The algebra's own equality: each component implies the other.
    pub fn alg_eq(&self, rhs: &Buckle) -> (r: bool)
        ensures
            r == buckle_equiv(self@, rhs@),
    {
        self.secrecy.implies(&rhs.secrecy) && rhs.secrecy.implies(&self.secrecy)
            && self.integrity.implies(&rhs.integrity) && rhs.integrity.implies(&self.integrity)
    }
}

proof fn lemma_clause_implies_refl(c: ClauseV)
    ensures
        clause_implies(c, c),
{
    if !c.is_empty() {
        assert forall|p: PathV| #[trigger] c.contains(p) implies path_matched(c, p) by {
            assert(c.contains(p) && path_prefix_of(p, p));
        }
    }
}

proof fn lemma_clause_implies_trans(a: ClauseV, b: ClauseV, c: ClauseV)
    requires
        clause_implies(a, b),
        clause_implies(b, c),
    ensures
        clause_implies(a, c),
{
    if !a.is_empty() {
        assert(!b.is_empty());
        assert(!c.is_empty());
        assert forall|p: PathV| #[trigger] a.contains(p) implies path_matched(c, p) by {
            let q = choose|q: PathV| #[trigger] b.contains(q) && path_prefix_of(p, q);
            let r = choose|r: PathV| #[trigger] c.contains(r) && path_prefix_of(q, r);
            assert(path_prefix_of(p, r));
        }
    }
}

/// A clause implies any clause extended with further paths.
proof fn lemma_clause_implies_union(c1: ClauseV, c2: ClauseV)
    ensures
        clause_implies(c1, c1.union(c2)),
{
    if !c1.is_empty() {
        let w = choose|w: PathV| c1.contains(w);
        assert(c1.union(c2).contains(w));
        assert forall|p: PathV| #[trigger] c1.contains(p)
            implies path_matched(c1.union(c2), p) by {
            assert(c1.union(c2).contains(p) && path_prefix_of(p, p));
        }
    }
}

/// The subsumption order is reflexive.
pub proof fn lemma_comp_implies_refl(a: ComponentV)
    ensures
        comp_implies(a, a),
{
    if let Some(s) = a {
        assert forall|oc: ClauseV| #[trigger] s.contains(oc)
            implies clause_covered(oc, s) by {
            lemma_clause_implies_refl(oc);
        }
    }
}

/// The subsumption order is transitive.
pub proof fn lemma_comp_implies_trans(a: ComponentV, b: ComponentV, c: ComponentV)
    requires
        comp_implies(a, b),
        comp_implies(b, c),
    ensures
        comp_implies(a, c),
{
    if a is Some && c is Some {
        let sa = a.unwrap();
        let sc = c.unwrap();
        let sb = b.unwrap();
        assert forall|oc: ClauseV| #[trigger] sc.contains(oc)
            implies clause_covered(oc, sa) by {
            let qb = choose|qb: ClauseV| #[trigger] sb.contains(qb) && clause_implies(qb, oc);
            let qa = choose|qa: ClauseV| #[trigger] sa.contains(qa) && clause_implies(qa, qb);
            lemma_clause_implies_trans(qa, qb, oc);
        }
    }
}

/// The join is associative.
pub proof fn lemma_join_assoc(a: ComponentV, b: ComponentV, c: ComponentV)
    ensures
        spec_join(a, spec_join(b, c)) == spec_join(spec_join(a, b), c),
{
    if let (Some(s), Some(o), Some(t)) = (a, b, c) {
        assert(s.union(o.union(t)) =~= s.union(o).union(t));
    }
}

/// The join is commutative.
pub proof fn lemma_join_comm(a: ComponentV, b: ComponentV)
    ensures
        spec_join(a, b) == spec_join(b, a),
{
    if let (Some(s), Some(o)) = (a, b) {
        assert(s.union(o) =~= o.union(s));
    }
}

/// The join is idempotent.
pub proof fn lemma_join_idem(a: ComponentV)
    ensures
        spec_join(a, a) == a,
{
    if let Some(s) = a {
        assert(s.union(s) =~= s);
    }
}

/// The meet is associative.
pub proof fn lemma_meet_assoc(a: ComponentV, b: ComponentV, c: ComponentV)
    ensures
        spec_meet(a, spec_meet(b, c)) == spec_meet(spec_meet(a, b), c),
{
    if let (Some(s), Some(o), Some(t)) = (a, b, c) {
        let lhs = cross_union(s, cross_union(o, t));
        let rhs = cross_union(cross_union(s, o), t);
        assert forall|x: ClauseV| #[trigger] lhs.contains(x) implies rhs.contains(x) by {
            let (c1, c23) = choose|c1: ClauseV, c23: ClauseV|
                #[trigger] s.contains(c1) && #[trigger] cross_union(o, t).contains(c23)
                    && x == c1.union(c23);
            let (c2, c3) = choose|c2: ClauseV, c3: ClauseV|
                #[trigger] o.contains(c2) && #[trigger] t.contains(c3) && c23 == c2.union(c3);
            assert(cross_union(s, o).contains(c1.union(c2)));
            assert(c1.union(c2).union(c3) =~= c1.union(c2.union(c3)));
            assert(rhs.contains(c1.union(c2).union(c3)));
        }
        assert forall|x: ClauseV| #[trigger] rhs.contains(x) implies lhs.contains(x) by {
            let (c12, c3) = choose|c12: ClauseV, c3: ClauseV|
                #[trigger] cross_union(s, o).contains(c12) && #[trigger] t.contains(c3)
                    && x == c12.union(c3);
            let (c1, c2) = choose|c1: ClauseV, c2: ClauseV|
                #[trigger] s.contains(c1) && #[trigger] o.contains(c2) && c12 == c1.union(c2);
            assert(cross_union(o, t).contains(c2.union(c3)));
            assert(c1.union(c2).union(c3) =~= c1.union(c2.union(c3)));
            assert(lhs.contains(c1.union(c2.union(c3))));
        }
        assert(lhs =~= rhs);
    }
}

/// The meet is commutative.
pub proof fn lemma_meet_comm(a: ComponentV, b: ComponentV)
    ensures
        spec_meet(a, b) == spec_meet(b, a),
{
    if let (Some(s), Some(o)) = (a, b) {
        assert forall|x: ClauseV| #[trigger] cross_union(s, o).contains(x)
            implies cross_union(o, s).contains(x) by {
            let (c1, c2) = choose|c1: ClauseV, c2: ClauseV|
                #[trigger] s.contains(c1) && #[trigger] o.contains(c2) && x == c1.union(c2);
            assert(c1.union(c2) =~= c2.union(c1));
            assert(cross_union(o, s).contains(c2.union(c1)));
        }
        assert forall|x: ClauseV| #[trigger] cross_union(o, s).contains(x)
            implies cross_union(s, o).contains(x) by {
            let (c2, c1) = choose|c2: ClauseV, c1: ClauseV|
                #[trigger] o.contains(c2) && #[trigger] s.contains(c1) && x == c2.union(c1);
            assert(c2.union(c1) =~= c1.union(c2));
            assert(cross_union(s, o).contains(c1.union(c2)));
        }
        assert(cross_union(s, o) =~= cross_union(o, s));
    }
}

/// The meet is idempotent up to the algebra's own equality.  (It is not
/// idempotent as a clause set: meeting a two-clause formula with itself also
/// yields the union of the two clauses, a subsumed clause that mutual
/// implication disregards.)
proof fn lemma_cross_self_covers(s: FormulaV, oc: ClauseV)
    requires
        s.contains(oc),
    ensures
        clause_covered(oc, cross_union(s, s)),
{
    assert(oc.union(oc) =~= oc);
    assert(cross_union(s, s).contains(oc.union(oc)));
    lemma_clause_implies_refl(oc);
    assert(cross_union(s, s).contains(oc) && clause_implies(oc, oc));
}

proof fn lemma_cross_self_covered(s: FormulaV, oc: ClauseV)
    requires
        cross_union(s, s).contains(oc),
    ensures
        clause_covered(oc, s),
{
    let (c1, c2) = choose|c1: ClauseV, c2: ClauseV|
        s.contains(c1) && s.contains(c2) && oc == #[trigger] c1.union(c2);
    lemma_clause_implies_union(c1, c2);
    assert(s.contains(c1) && clause_implies(c1, oc));
}

/// The meet is idempotent up to the algebra's own equality.  (It is not
/// idempotent as a clause set: meeting a two-clause formula with itself also
/// yields the union of the two clauses, a subsumed clause that mutual
/// implication disregards.)
pub proof fn lemma_meet_idem(a: ComponentV)
    ensures
        comp_equiv(spec_meet(a, a), a),
{
    if let Some(s) = a {
        let m = cross_union(s, s);
        assert forall|oc: ClauseV| #[trigger] s.contains(oc)
            implies clause_covered(oc, m) by {
            lemma_cross_self_covers(s, oc);
        }
        assert forall|oc: ClauseV| #[trigger] m.contains(oc)
            implies clause_covered(oc, s) by {
            lemma_cross_self_covered(s, oc);
        }
        assert(formula_implies(m, s));
        assert(formula_implies(s, m));
    }
}

/// Raising the target never revokes a granted flow: if data may flow to
/// `l2` under privilege `p`, it may also flow to any target `l2p` that `l2`
/// itself may flow to.
pub proof fn lemma_flow_monotone(l1: BuckleV, l2: BuckleV, l2p: BuckleV, p: ComponentV)
    requires
        can_flow_v(l1, l2, p),
        can_flow_plain(l2, l2p),
    ensures
        can_flow_v(l1, l2p, p),
{
    lemma_comp_implies_trans(l2p.secrecy, l2.secrecy, spec_declassify(l1.secrecy, p));
    lemma_comp_implies_trans(spec_endorse(l1.integrity, p), l2.integrity, l2p.integrity);
}

/// The unreachable element grants nothing as a privilege: flow under it is
/// exactly flow with no privilege at all.
pub proof fn lemma_flow_unreachable_privilege(l1: BuckleV, l2: BuckleV)
    ensures
        can_flow_v(l1, l2, None) == can_flow_plain(l1, l2),
{
}

/// A privilege whose clauses cover every secrecy clause of the source
/// discharges its secrecy entirely: the flow then succeeds towards any
/// target whose integrity the endorsed source implies.
pub proof fn lemma_covering_privilege_flows(sec: FormulaV, intg: ComponentV, l2: BuckleV, pcs: FormulaV)
    requires
        forall|c: ClauseV| #[trigger] sec.contains(c) ==> clause_covered(c, pcs),
        comp_implies(spec_endorse(intg, Some(pcs)), l2.integrity),
    ensures
        can_flow_v(BuckleV { secrecy: Some(sec), integrity: intg }, l2, Some(pcs)),
{
    let d = sec.filter(|c: ClauseV| !clause_covered(c, pcs));
    assert(d =~= Set::<ClauseV>::empty());
    if let Some(o2) = l2.secrecy {
        assert(formula_implies(o2, d));
    }
}

} // verus!

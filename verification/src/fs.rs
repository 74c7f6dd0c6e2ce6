//! The capability namespace: an arena of labeled directory entries of six
//! kinds — directories, faceted directories, gates (direct and redirect),
//! services, blobs and files — with the flow checks each operation makes.
//! Entry identifiers index the arena; a directory maps names to
//! identifiers, a faceted directory maps labels to lazily materialized
//! sub-directories.

use vstd::prelude::*;
use vstd::slice::slice_to_vec;
use crate::buckle::{
    Buckle, BuckleV, Component, ComponentV, buckle_equiv, can_flow_v, comp_implies, spec_join,
    spec_meet,
};

verus! {

/// The failures of namespace operations.
#[derive(Clone, Copy, Debug, PartialEq, Eq, Structural)]
pub enum FsError {
    /// The requested flow is not permitted by the current label and
    /// privilege, or a gate's invoker clearance is not dominated.
    LabelViolation,
    /// The name already exists under the parent with an incompatible kind.
    NameConflict,
    /// No entry with that identifier, name or facet.
    NotFound,
    /// The entry is not of the kind the operation needs.
    WrongKind,
    /// Blob content cannot be overwritten.
    Immutable,
    /// A redirect chain exceeded the hop bound.
    TooManyHops,
}

/// A reference to an executable function image.
pub struct Function {
    pub memory: u64,
    pub app_image: String,
    pub runtime_image: String,
    pub kernel: String,
}

/// A plain hierarchical namespace node: names mapped to entry identifiers.
pub struct Directory {
    pub entries: Vec<(String, u64)>,
}

/// A mutable byte payload.
pub struct File {
    pub data: Vec<u8>,
}

/// An immutable content payload.
pub struct Blob {
    pub data: Vec<u8>,
}

/// One namespace presenting a different sub-directory per observer label.
pub struct FacetedDirectory {
    pub facets: Vec<(Buckle, u64)>,
}

/// What invoking a gate resolves to: a function, or another gate.
pub enum GateTarget {
    Direct(Function),
    Redirect(u64),
}

/// An invocable capability, carrying its own privilege and declassification
/// grant; invoking never grants more authority than that entry itself holds.
pub struct Gate {
    pub privilege: Component,
    pub invoker_integrity_clearance: Component,
    pub declassify: Component,
    pub target: GateTarget,
}

/// An externally hosted capability; results it produces carry at least the
/// taint label.
pub struct Service {
    pub privilege: Component,
    pub invoker_integrity_clearance: Component,
    pub taint: Buckle,
    pub url: String,
    pub verb: i32,
    pub headers: Vec<(String, String)>,
}

/// A namespace node: exactly one of the six kinds.
pub enum DirEntry {
    Directory(Directory),
    File(File),
    FacetedDirectory(FacetedDirectory),
    Gate(Gate),
    Service(Service),
    Blob(Blob),
}

/// A labeled namespace node.
pub struct Dent {
    pub label: Buckle,
    pub entry: DirEntry,
}

/// The arena of namespace nodes; an entry's identifier is its index.
pub struct FS {
    pub dents: Vec<Dent>,
}

/// The current execution context: its label and the privilege it may speak
/// with.
pub struct Context {
    pub label: Buckle,
    pub privilege: Component,
}

/// The kind requested by a create operation.
pub enum CreateKind {
    Directory,
    File,
    FacetedDirectory,
    Gate(Gate),
    Service(Service),
    Blob,
}

/// The maximum number of redirect hops an invocation will follow.
pub const MAX_HOPS: u64 = 32;

/// No entry of the directory bears this name.
pub open spec fn name_free(entries: Seq<(String, u64)>, name: Seq<char>) -> bool {
    forall|k: int| 0 <= k < entries.len() ==> (#[trigger] entries[k].0)@ != name
}

/// The index of the first entry of the table bearing the name, if any.
pub open spec fn name_find(entries: Seq<(String, u64)>, name: Seq<char>) -> Option<int>
    decreases entries.len(),
{
    if entries.len() == 0 {
        None
    } else if entries[0].0@ == name {
        Some(0)
    } else {
        match name_find(entries.drop_first(), name) {
            None => None,
            Some(k) => Some(k + 1),
        }
    }
}

proof fn lemma_name_find_first(entries: Seq<(String, u64)>, name: Seq<char>, i: int)
    requires
        0 <= i < entries.len(),
        forall|k: int| 0 <= k < i ==> (#[trigger] entries[k].0)@ != name,
        entries[i].0@ == name,
    ensures
        name_find(entries, name) == Some(i),
    decreases i,
{
    if i > 0 {
        let rest = entries.drop_first();
        assert forall|k: int| 0 <= k < i - 1 implies (#[trigger] rest[k].0)@ != name by {
            assert(rest[k] == entries[k + 1]);
        }
        assert(rest[i - 1] == entries[i]);
        lemma_name_find_first(rest, name, i - 1);
    }
}

proof fn lemma_name_find_none(entries: Seq<(String, u64)>, name: Seq<char>)
    requires
        name_free(entries, name),
    ensures
        name_find(entries, name) is None,
    decreases entries.len(),
{
    if entries.len() > 0 {
        let rest = entries.drop_first();
        assert forall|k: int| 0 <= k < rest.len() implies (#[trigger] rest[k].0)@ != name by {
            assert(rest[k] == entries[k + 1]);
        }
        lemma_name_find_none(rest, name);
    }
}

/// The requested kind matches the kind of an existing entry.
pub open spec fn same_kind(kind: CreateKind, e: DirEntry) -> bool {
    match (kind, e) {
        (CreateKind::Directory, DirEntry::Directory(_)) => true,
        (CreateKind::File, DirEntry::File(_)) => true,
        (CreateKind::FacetedDirectory, DirEntry::FacetedDirectory(_)) => true,
        (CreateKind::Gate(_), DirEntry::Gate(_)) => true,
        (CreateKind::Service(_), DirEntry::Service(_)) => true,
        (CreateKind::Blob, DirEntry::Blob(_)) => true,
        _ => false,
    }
}

/// The identifier is inside the arena.
pub open spec fn valid_id(d: Seq<Dent>, id: u64) -> bool {
    id < d.len()
}

/// The identifier names a plain directory.
pub open spec fn is_directory(d: Seq<Dent>, id: u64) -> bool {
    valid_id(d, id) && d[id as int].entry is Directory
}

/// The identifier names a faceted directory.
pub open spec fn is_faceted(d: Seq<Dent>, id: u64) -> bool {
    valid_id(d, id) && d[id as int].entry is FacetedDirectory
}

/// The caller may observe data under the facet label: the facet's label
/// flows to the caller's own, given the caller's privilege.
pub open spec fn dominates(clabel: BuckleV, cpriv: ComponentV, facet: BuckleV) -> bool {
    can_flow_v(facet, clabel, cpriv)
}

/// What a create returns: the flow check first, then the first entry
/// bearing the name decides between converging on it, a kind conflict, and
/// a fresh entry at the end of the arena.
pub open spec fn spec_create_result(
    d: Seq<Dent>,
    ctx: Context,
    parent: u64,
    name: Seq<char>,
    label: Buckle,
    kind: CreateKind,
) -> Result<u64, FsError> {
    if !valid_id(d, parent) {
        Err(FsError::NotFound)
    } else {
        match d[parent as int].entry {
            DirEntry::Directory(dir) => {
                if !can_flow_v(ctx.label@, label@, ctx.privilege@) {
                    Err(FsError::LabelViolation)
                } else {
                    match name_find(dir.entries@, name) {
                        Some(k) => {
                            let t = dir.entries@[k].1;
                            if !valid_id(d, t) {
                                Err(FsError::NotFound)
                            } else if same_kind(kind, d[t as int].entry) {
                                Ok(t)
                            } else {
                                Err(FsError::NameConflict)
                            }
                        },
                        None => Ok(d.len() as u64),
                    }
                }
            },
            _ => Err(FsError::WrongKind),
        }
    }
}

/// What a name lookup returns: the identifier the first matching entry
/// maps to, or the absence of any match.
pub open spec fn spec_open_name(d: Seq<Dent>, parent: u64, name: Seq<char>) -> Result<
    u64,
    FsError,
> {
    if !valid_id(d, parent) {
        Err(FsError::NotFound)
    } else {
        match d[parent as int].entry {
            DirEntry::Directory(dir) => match name_find(dir.entries@, name) {
                Some(k) => Ok(dir.entries@[k].1),
                None => Err(FsError::NotFound),
            },
            _ => Err(FsError::WrongKind),
        }
    }
}

/// What a delete returns: removal succeeds exactly when the name is bound
/// to a live entry and the caller's label may flow to that entry's label.
pub open spec fn spec_delete_result(d: Seq<Dent>, ctx: Context, parent: u64, name: Seq<char>) -> Result<(), FsError> {
    if !valid_id(d, parent) {
        Err(FsError::NotFound)
    } else {
        match d[parent as int].entry {
            DirEntry::Directory(dir) => match name_find(dir.entries@, name) {
                None => Err(FsError::NotFound),
                Some(k) => {
                    let t = dir.entries@[k].1;
                    if !valid_id(d, t) {
                        Err(FsError::NotFound)
                    } else if !can_flow_v(ctx.label@, d[t as int].label@, ctx.privilege@) {
                        Err(FsError::LabelViolation)
                    } else {
                        Ok(())
                    }
                },
            },
            _ => Err(FsError::WrongKind),
        }
    }
}

impl FS {
    /// An empty namespace seeded with one public root directory, entry 0.
    pub fn new() -> (r: FS)
        ensures
            r.dents@.len() == 1,
            is_directory(r.dents@, 0),
            r.dents@[0].entry matches DirEntry::Directory(d) && d.entries@.len() == 0,
    {
        let root = Dent {
            label: Buckle::public(),
            entry: DirEntry::Directory(Directory { entries: Vec::new() }),
        };
        let mut dents: Vec<Dent> = Vec::new();
        dents.push(root);
        FS { dents }
    }

    /// Creates a new entry under a directory.  The caller's label must flow
    /// to the requested label under the caller's privilege; a name already
    /// taken by an entry of the same kind yields that entry (so concurrent
    /// creates converge on one winner), and a name taken by another kind is
    /// a conflict.
    pub fn create(&mut self, ctx: &Context, parent: u64, name: String, label: Buckle, kind: CreateKind) -> (r: Result<u64, FsError>)
        ensures
            r == spec_create_result(old(self).dents@, *ctx, parent, name@, label, kind),
            r is Err ==> final(self).dents@ == old(self).dents@,
            is_directory(old(self).dents@, parent) ==> (old(self).dents@[parent as int].entry
                matches DirEntry::Directory(dir) ==> {
                &&& (name_find(dir.entries@, name@) is Some ==> final(self).dents@ == old(
                    self).dents@)
                &&& (r is Ok && name_find(dir.entries@, name@) is None ==> {
                    &&& final(self).dents@.len() == old(self).dents@.len() + 1
                    &&& final(self).dents@[old(self).dents@.len() as int].label == label
                    &&& same_kind(kind, final(self).dents@[old(self).dents@.len() as int].entry)
                    &&& (final(self).dents@[parent as int].entry matches DirEntry::Directory(
                        ndir) && ndir.entries@ == dir.entries@.push(
                        (name, old(self).dents@.len() as u64)))
                    &&& final(self).dents@[parent as int].label == old(self).dents@[
                        parent as int].label
                    &&& forall|k: int| 0 <= k < old(self).dents@.len() && k != parent
                        ==> final(self).dents@[k] == old(self).dents@[k]
                })
            }),
    {
        let ghost d0 = self.dents@;
        if parent >= self.dents.len() as u64 {
            return Err(FsError::NotFound);
        }
        let pidx = parent as usize;
        let is_dir = match &self.dents[pidx].entry {
            DirEntry::Directory(_) => true,
            _ => false,
        };
        if !is_dir {
            return Err(FsError::WrongKind);
        }
        if !ctx.label.can_flow_to_with_privilege(&label, &ctx.privilege) {
            return Err(FsError::LabelViolation);
        }
        // find the first entry bearing the name
        let mut found: Option<usize> = None;
        {
            let dir_entries_len = match &self.dents[pidx].entry {
                DirEntry::Directory(dir) => dir.entries.len(),
                _ => 0,
            };
            let mut i: usize = 0;
            while i < dir_entries_len
                invariant_except_break
                    found is None,
                invariant
                    self.dents@ == d0,
                    valid_id(d0, parent),
                    pidx as int == parent as int,
                    d0[parent as int].entry matches DirEntry::Directory(dir) && {
                        &&& dir_entries_len == dir.entries@.len()
                        &&& i <= dir.entries@.len()
                        &&& (found is None ==> forall|k: int| 0 <= k < i
                            ==> (#[trigger] dir.entries@[k].0)@ != name@)
                    },
                ensures
                    self.dents@ == d0,
                    d0[parent as int].entry matches DirEntry::Directory(dir) ==> {
                        &&& (found is None ==> name_free(dir.entries@, name@))
                        &&& (found matches Some(i2) ==> i2 < dir.entries@.len()
                            && name_find(dir.entries@, name@) == Some(i2 as int))
                    },
                decreases dir_entries_len - i,
            {
                let hit = match &self.dents[pidx].entry {
                    DirEntry::Directory(dir) => dir.entries[i].0 == name,
                    _ => false,
                };
                if hit {
                    found = Some(i);
                    proof {
                        if let DirEntry::Directory(dir) = d0[parent as int].entry {
                            assert(dir.entries@[i as int].0@ == name@);
                            lemma_name_find_first(dir.entries@, name@, i as int);
                        }
                    }
                    break;
                }
                i += 1;
            }
        }
        match found {
            Some(i) => {
                let id = match &self.dents[pidx].entry {
                    DirEntry::Directory(dir) => dir.entries[i].1,
                    _ => 0,
                };
                if id >= self.dents.len() as u64 {
                    return Err(FsError::NotFound);
                }
                let sk = {
                    let e = &self.dents[id as usize].entry;
                    match (&kind, e) {
                        (CreateKind::Directory, DirEntry::Directory(_)) => true,
                        (CreateKind::File, DirEntry::File(_)) => true,
                        (CreateKind::FacetedDirectory, DirEntry::FacetedDirectory(_)) => true,
                        (CreateKind::Gate(_), DirEntry::Gate(_)) => true,
                        (CreateKind::Service(_), DirEntry::Service(_)) => true,
                        (CreateKind::Blob, DirEntry::Blob(_)) => true,
                        _ => false,
                    }
                };
                proof {
                    assert(sk == same_kind(kind, d0[id as int].entry));
                }
                if sk {
                    Ok(id)
                } else {
                    Err(FsError::NameConflict)
                }
            },
            None => {
                proof {
                    if let DirEntry::Directory(dir) = d0[parent as int].entry {
                        lemma_name_find_none(dir.entries@, name@);
                    }
                }
                let new_id = self.dents.len() as u64;
                let entry = match kind {
                    CreateKind::Directory => DirEntry::Directory(Directory { entries: Vec::new() }),
                    CreateKind::File => DirEntry::File(File { data: Vec::new() }),
                    CreateKind::FacetedDirectory => DirEntry::FacetedDirectory(
                        FacetedDirectory { facets: Vec::new() }),
                    CreateKind::Gate(g) => DirEntry::Gate(g),
                    CreateKind::Service(s) => DirEntry::Service(s),
                    CreateKind::Blob => DirEntry::Blob(Blob { data: Vec::new() }),
                };
                self.dents.push(Dent { label, entry });
                let dent = self.dents.remove(pidx);
                let ndent = match dent.entry {
                    DirEntry::Directory(mut dir) => {
                        dir.entries.push((name, new_id));
                        Dent { label: dent.label, entry: DirEntry::Directory(dir) }
                    },
                    e => Dent { label: dent.label, entry: e },
                };
                self.dents.insert(pidx, ndent);
                Ok(new_id)
            },
        }
    }

    /// Removes a name from a directory.  Deletion is subject to the same
    /// flow check as a write to the entry being removed.
    pub fn delete(&mut self, ctx: &Context, parent: u64, name: &String) -> (r: Result<
        (),
        FsError,
    >)
        ensures
            r == spec_delete_result(old(self).dents@, *ctx, parent, name@),
            r is Err ==> final(self).dents@ == old(self).dents@,
            is_directory(old(self).dents@, parent) ==> (old(self).dents@[parent as int].entry
                matches DirEntry::Directory(dir) ==> (r is Ok ==> (name_find(dir.entries@,
                name@) matches Some(k) ==> {
                &&& final(self).dents@.len() == old(self).dents@.len()
                &&& (final(self).dents@[parent as int].entry matches DirEntry::Directory(nd)
                    && nd.entries@ == dir.entries@.remove(k))
                &&& final(self).dents@[parent as int].label == old(self).dents@[
                    parent as int].label
                &&& forall|j: int| 0 <= j < old(self).dents@.len() && j != parent
                    ==> final(self).dents@[j] == old(self).dents@[j]
            }))),
    {
        let ghost d0 = self.dents@;
        if parent >= self.dents.len() as u64 {
            return Err(FsError::NotFound);
        }
        let pidx = parent as usize;
        let is_dir = match &self.dents[pidx].entry {
            DirEntry::Directory(_) => true,
            _ => false,
        };
        if !is_dir {
            return Err(FsError::WrongKind);
        }
        let mut found: Option<usize> = None;
        {
            let dir_entries_len = match &self.dents[pidx].entry {
                DirEntry::Directory(dir) => dir.entries.len(),
                _ => 0,
            };
            let mut i: usize = 0;
            while i < dir_entries_len
                invariant_except_break
                    found is None,
                invariant
                    self.dents@ == d0,
                    valid_id(d0, parent),
                    pidx as int == parent as int,
                    d0[parent as int].entry matches DirEntry::Directory(dir) && {
                        &&& dir_entries_len == dir.entries@.len()
                        &&& i <= dir.entries@.len()
                        &&& (found is None ==> forall|k: int| 0 <= k < i
                            ==> (#[trigger] dir.entries@[k].0)@ != name@)
                    },
                ensures
                    self.dents@ == d0,
                    d0[parent as int].entry matches DirEntry::Directory(dir) ==> {
                        &&& (found is None ==> name_free(dir.entries@, name@))
                        &&& (found matches Some(i2) ==> i2 < dir.entries@.len()
                            && name_find(dir.entries@, name@) == Some(i2 as int))
                    },
                decreases dir_entries_len - i,
            {
                let hit = match &self.dents[pidx].entry {
                    DirEntry::Directory(dir) => dir.entries[i].0 == *name,
                    _ => false,
                };
                if hit {
                    found = Some(i);
                    proof {
                        if let DirEntry::Directory(dir) = d0[parent as int].entry {
                            assert(dir.entries@[i as int].0@ == name@);
                            lemma_name_find_first(dir.entries@, name@, i as int);
                        }
                    }
                    break;
                }
                i += 1;
            }
        }
        let idx = match found {
            None => {
                proof {
                    if let DirEntry::Directory(dir) = d0[parent as int].entry {
                        lemma_name_find_none(dir.entries@, name@);
                    }
                }
                return Err(FsError::NotFound);
            },
            Some(i) => i,
        };
        let target = match &self.dents[pidx].entry {
            DirEntry::Directory(dir) => dir.entries[idx].1,
            _ => 0,
        };
        if target >= self.dents.len() as u64 {
            return Err(FsError::NotFound);
        }
        if !ctx.label.can_flow_to_with_privilege(&self.dents[target as usize].label,
            &ctx.privilege) {
            return Err(FsError::LabelViolation);
        }
        let dent = self.dents.remove(pidx);
        let ndent = match dent.entry {
            DirEntry::Directory(mut dir) => {
                dir.entries.remove(idx);
                Dent { label: dent.label, entry: DirEntry::Directory(dir) }
            },
            e => Dent { label: dent.label, entry: e },
        };
        let ghost gnd = ndent;
        self.dents.insert(pidx, ndent);
        proof {
            assert(self.dents@ =~= d0.update(parent as int, gnd));
        }
        Ok(())
    }

    /// Looks a name up under a directory.
    #[verifier::loop_isolation(false)]
    pub fn open_name(&self, parent: u64, name: &String) -> (r: Result<u64, FsError>)
        ensures
            r == spec_open_name(self.dents@, parent, name@),
    {
        if parent >= self.dents.len() as u64 {
            return Err(FsError::NotFound);
        }
        let pidx = parent as usize;
        match &self.dents[pidx].entry {
            DirEntry::Directory(dir) => {
                let n = dir.entries.len();
                for i in 0..n
                    invariant
                        n == dir.entries@.len(),
                        forall|k: int| 0 <= k < i ==> (#[trigger] dir.entries@[k].0)@ != name@,
                {
                    if dir.entries[i].0 == *name {
                        proof {
                            assert(dir.entries@[i as int].0@ == name@);
                            lemma_name_find_first(dir.entries@, name@, i as int);
                        }
                        return Ok(dir.entries[i].1);
                    }
                }
                proof {
                    lemma_name_find_none(dir.entries@, name@);
                }
                Err(FsError::NotFound)
            },
            _ => Err(FsError::WrongKind),
        }
    }

    /// Reads the content of a file or blob; the target's label must flow to
    /// the caller's.
    pub fn read(&self, ctx: &Context, id: u64) -> (r: Result<Vec<u8>, FsError>)
        ensures
            !valid_id(self.dents@, id) ==> r == Err::<Vec<u8>, FsError>(FsError::NotFound),
            valid_id(self.dents@, id) && !(self.dents@[id as int].entry is File
                || self.dents@[id as int].entry is Blob) ==> r == Err::<Vec<u8>, FsError>(
                FsError::WrongKind),
            valid_id(self.dents@, id) && (self.dents@[id as int].entry is File
                || self.dents@[id as int].entry is Blob) && !can_flow_v(
                self.dents@[id as int].label@, ctx.label@, ctx.privilege@) ==> r == Err::<
                Vec<u8>, FsError>(FsError::LabelViolation),
            valid_id(self.dents@, id) && can_flow_v(self.dents@[id as int].label@, ctx.label@,
                ctx.privilege@) ==> {
                &&& (self.dents@[id as int].entry matches DirEntry::File(f) ==> (r matches Ok(
                    v) && v@ == f.data@))
                &&& (self.dents@[id as int].entry matches DirEntry::Blob(b) ==> (r matches Ok(
                    v) && v@ == b.data@))
            },
    {
        if id >= self.dents.len() as u64 {
            return Err(FsError::NotFound);
        }
        let dent = &self.dents[id as usize];
        let is_content = match &dent.entry {
            DirEntry::File(_) => true,
            DirEntry::Blob(_) => true,
            _ => false,
        };
        if !is_content {
            return Err(FsError::WrongKind);
        }
        if !dent.label.can_flow_to_with_privilege(&ctx.label, &ctx.privilege) {
            return Err(FsError::LabelViolation);
        }
        match &dent.entry {
            DirEntry::File(f) => Ok(slice_to_vec(f.data.as_slice())),
            DirEntry::Blob(b) => Ok(slice_to_vec(b.data.as_slice())),
            _ => Err(FsError::WrongKind),
        }
    }

    /// Replaces the content of a file.  The caller's label must flow to the
    /// file's; blob content is immutable.
    pub fn write(&mut self, ctx: &Context, id: u64, data: Vec<u8>) -> (r: Result<(), FsError>)
        ensures
            !valid_id(old(self).dents@, id) ==> r == Err::<(), FsError>(FsError::NotFound)
                && final(self).dents@ == old(self).dents@,
            valid_id(old(self).dents@, id) && old(self).dents@[id as int].entry is Blob
                ==> r == Err::<(), FsError>(FsError::Immutable)
                && final(self).dents@ == old(self).dents@,
            valid_id(old(self).dents@, id) && !(old(self).dents@[id as int].entry is File
                || old(self).dents@[id as int].entry is Blob) ==> r == Err::<(), FsError>(
                FsError::WrongKind) && final(self).dents@ == old(self).dents@,
            valid_id(old(self).dents@, id) && old(self).dents@[id as int].entry is File
                && !can_flow_v(ctx.label@, old(self).dents@[id as int].label@, ctx.privilege@)
                ==> r == Err::<(), FsError>(FsError::LabelViolation)
                && final(self).dents@ == old(self).dents@,
            valid_id(old(self).dents@, id) && old(self).dents@[id as int].entry is File
                && can_flow_v(ctx.label@, old(self).dents@[id as int].label@, ctx.privilege@)
                ==> r == Ok::<(), FsError>(()) && final(self).dents@ == old(self).dents@.update(
                id as int,
                Dent {
                    label: old(self).dents@[id as int].label,
                    entry: DirEntry::File(File { data }),
                },
            ),
    {
        let ghost d0 = self.dents@;
        if id >= self.dents.len() as u64 {
            return Err(FsError::NotFound);
        }
        let idx = id as usize;
        match &self.dents[idx].entry {
            DirEntry::Blob(_) => {
                return Err(FsError::Immutable);
            },
            DirEntry::File(_) => {},
            _ => {
                return Err(FsError::WrongKind);
            },
        }
        if !ctx.label.can_flow_to_with_privilege(&self.dents[idx].label, &ctx.privilege) {
            return Err(FsError::LabelViolation);
        }
        let dent = self.dents.remove(idx);
        let ndent = Dent { label: dent.label, entry: DirEntry::File(File { data }) };
        self.dents.insert(idx, ndent);
        proof {
            assert(self.dents@ =~= d0.update(
                id as int,
                Dent { label: d0[id as int].label, entry: DirEntry::File(File { data }) },
            ));
        }
        Ok(())
    }
}

/// The first facet of the list whose label equals `f` under the algebra's
/// own equality.
pub open spec fn facet_find(facets: Seq<(Buckle, u64)>, f: BuckleV) -> Option<u64>
    decreases facets.len(),
{
    if facets.len() == 0 {
        None
    } else if buckle_equiv(facets[0].0@, f) {
        Some(facets[0].1)
    } else {
        facet_find(facets.drop_first(), f)
    }
}

proof fn lemma_facet_find_skip(facets: Seq<(Buckle, u64)>, f: BuckleV, i: int)
    requires
        0 <= i <= facets.len(),
        forall|k: int| 0 <= k < i ==> !buckle_equiv((#[trigger] facets[k].0)@, f),
    ensures
        facet_find(facets, f) == facet_find(facets.skip(i), f),
    decreases i,
{
    if i > 0 {
        lemma_facet_find_skip(facets, f, i - 1);
        assert(facets.skip(i - 1)[0] == facets[i - 1]);
        assert(facets.skip(i - 1).drop_first() =~= facets.skip(i));
    } else {
        assert(facets.skip(0) =~= facets);
    }
}

/// What opening a facet returns: denied indistinguishably from absent for a
/// non-dominating caller, the existing facet where one with an equal label
/// exists, and a fresh sub-directory identifier otherwise.
pub open spec fn spec_open_facet(d: Seq<Dent>, clabel: BuckleV, cpriv: ComponentV, parent: u64, facet: BuckleV) -> Result<u64, FsError> {
    if !valid_id(d, parent) {
        Err(FsError::NotFound)
    } else {
        match d[parent as int].entry {
            DirEntry::FacetedDirectory(fd) => {
                if !dominates(clabel, cpriv, facet) {
                    Err(FsError::NotFound)
                } else {
                    match facet_find(fd.facets@, facet) {
                        Some(id) => Ok(id),
                        None => Ok(d.len() as u64),
                    }
                }
            },
            _ => Err(FsError::WrongKind),
        }
    }
}

impl FS {
    /// Opens one facet of a faceted directory, materializing it lazily on
    /// first observation.  A caller whose label does not dominate the facet
    /// is denied exactly as if the facet did not exist, and nothing changes.
    pub fn open_facet(&mut self, ctx: &Context, parent: u64, facet: &Buckle) -> (r: Result<
        u64,
        FsError,
    >)
        ensures
            r == spec_open_facet(old(self).dents@, ctx.label@, ctx.privilege@, parent, facet@),
            r is Err ==> final(self).dents@ == old(self).dents@,
            is_faceted(old(self).dents@, parent) && dominates(ctx.label@, ctx.privilege@, facet@)
                ==> (old(self).dents@[parent as int].entry matches DirEntry::FacetedDirectory(
                fd) ==> {
                &&& (facet_find(fd.facets@, facet@) is Some ==> final(self).dents@ == old(
                    self).dents@)
                &&& (facet_find(fd.facets@, facet@) is None ==> {
                    &&& final(self).dents@.len() == old(self).dents@.len() + 1
                    &&& final(self).dents@[old(self).dents@.len() as int].label@ == facet@
                    &&& (final(self).dents@[old(self).dents@.len() as int].entry matches
                        DirEntry::Directory(nd) && nd.entries@.len() == 0)
                    &&& (final(self).dents@[parent as int].entry matches
                        DirEntry::FacetedDirectory(nfd) && nfd.facets@.len() == fd.facets@.len()
                        + 1 && nfd.facets@.subrange(0, fd.facets@.len() as int) == fd.facets@
                        && nfd.facets@[fd.facets@.len() as int].0@ == facet@
                        && nfd.facets@[fd.facets@.len() as int].1 == old(self).dents@.len() as u64)
                    &&& final(self).dents@[parent as int].label == old(self).dents@[
                        parent as int].label
                    &&& forall|k: int| 0 <= k < old(self).dents@.len() && k != parent
                        ==> final(self).dents@[k] == old(self).dents@[k]
                })
            }),
    {
        let ghost d0 = self.dents@;
        if parent >= self.dents.len() as u64 {
            return Err(FsError::NotFound);
        }
        let pidx = parent as usize;
        let is_fd = match &self.dents[pidx].entry {
            DirEntry::FacetedDirectory(_) => true,
            _ => false,
        };
        if !is_fd {
            return Err(FsError::WrongKind);
        }
        if !facet.can_flow_to_with_privilege(&ctx.label, &ctx.privilege) {
            return Err(FsError::NotFound);
        }
        let mut found: Option<u64> = None;
        {
            let fd_len = match &self.dents[pidx].entry {
                DirEntry::FacetedDirectory(fd) => fd.facets.len(),
                _ => 0,
            };
            let mut i: usize = 0;
            while i < fd_len
                invariant_except_break
                    found is None,
                invariant
                    self.dents@ == d0,
                    valid_id(d0, parent),
                    pidx as int == parent as int,
                    d0[parent as int].entry matches DirEntry::FacetedDirectory(fd) && {
                        &&& fd_len == fd.facets@.len()
                        &&& i <= fd.facets@.len()
                        &&& forall|k: int| 0 <= k < i
                            ==> !buckle_equiv((#[trigger] fd.facets@[k].0)@, facet@)
                    },
                ensures
                    self.dents@ == d0,
                    d0[parent as int].entry matches DirEntry::FacetedDirectory(fd) ==> {
                        &&& (found is None ==> forall|k: int| 0 <= k < fd.facets@.len()
                            ==> !buckle_equiv((#[trigger] fd.facets@[k].0)@, facet@))
                        &&& (found matches Some(id) ==> facet_find(fd.facets@, facet@) == Some(
                            id))
                    },
                decreases fd_len - i,
            {
                let hit = match &self.dents[pidx].entry {
                    DirEntry::FacetedDirectory(fd) => {
                        if fd.facets[i].0.alg_eq(facet) {
                            found = Some(fd.facets[i].1);
                            true
                        } else {
                            false
                        }
                    },
                    _ => false,
                };
                proof {
                    if let DirEntry::FacetedDirectory(fd) = d0[parent as int].entry {
                        if hit {
                            lemma_facet_find_skip(fd.facets@, facet@, i as int);
                            assert(fd.facets@.skip(i as int)[0] == fd.facets@[i as int]);
                        }
                    }
                }
                if hit {
                    break;
                }
                i += 1;
            }
            proof {
                if let DirEntry::FacetedDirectory(fd) = d0[parent as int].entry {
                    if found is None {
                        lemma_facet_find_skip(fd.facets@, facet@, fd.facets@.len() as int);
                        assert(fd.facets@.skip(fd.facets@.len() as int) =~= Seq::<(Buckle,
                            u64)>::empty());
                        assert(facet_find(fd.facets@, facet@) is None);
                    }
                }
            }
        }
        match found {
            Some(id) => Ok(id),
            None => {
                let new_id = self.dents.len() as u64;
                let new_dent = Dent {
                    label: facet.duplicate(),
                    entry: DirEntry::Directory(Directory { entries: Vec::new() }),
                };
                self.dents.push(new_dent);
                let dent = self.dents.remove(pidx);
                let ndent = match dent.entry {
                    DirEntry::FacetedDirectory(mut fd) => {
                        fd.facets.push((facet.duplicate(), new_id));
                        Dent { label: dent.label, entry: DirEntry::FacetedDirectory(fd) }
                    },
                    e => Dent { label: dent.label, entry: e },
                };
                self.dents.insert(pidx, ndent);
                Ok(new_id)
            },
        }
    }
}

fn clone_function(f: &Function) -> (r: Function)
    ensures
        r == *f,
{
    Function {
        memory: f.memory,
        app_image: f.app_image.clone(),
        runtime_image: f.runtime_image.clone(),
        kernel: f.kernel.clone(),
    }
}

fn clone_headers(h: &Vec<(String, String)>) -> (r: Vec<(String, String)>)
    ensures
        r@ == h@,
{
    let mut r: Vec<(String, String)> = Vec::new();
    let n = h.len();
    for i in 0..n
        invariant
            n == h.len(),
            r@.len() == i,
            forall|k: int| 0 <= k < i ==> r@[k] == #[trigger] h@[k],
    {
        r.push((h[i].0.clone(), h[i].1.clone()));
    }
    proof {
        assert(r@ =~= h@);
    }
    r
}

/// What a gate invocation resolves to: the function of the terminal direct
/// gate, under the privilege and declassification grant accumulated along
/// the chain.
pub struct ResolvedGate {
    pub function: Function,
    pub privilege: Component,
    pub declassify: Component,
}

/// Resolution of a gate chain, hop-bounded by the fuel.  Integrity
/// clearance is checked at every hop, and the effective privilege and
/// declassification grant are the meets of all values traversed, so a chain
/// can only narrow authority.
pub open spec fn spec_resolve(d: Seq<Dent>, cint: ComponentV, id: u64, acc_priv: ComponentV, acc_decl: ComponentV, fuel: nat) -> Result<(u64, ComponentV, ComponentV), FsError>
    decreases fuel,
{
    if !valid_id(d, id) {
        Err(FsError::NotFound)
    } else {
        match d[id as int].entry {
            DirEntry::Gate(g) => {
                if !comp_implies(cint, g.invoker_integrity_clearance@) {
                    Err(FsError::LabelViolation)
                } else {
                    let np = spec_meet(acc_priv, g.privilege@);
                    let nd = spec_meet(acc_decl, g.declassify@);
                    match g.target {
                        GateTarget::Direct(_) => Ok((id, np, nd)),
                        GateTarget::Redirect(nxt) => if fuel == 0 {
                            Err(FsError::TooManyHops)
                        } else {
                            spec_resolve(d, cint, nxt, np, nd, (fuel - 1) as nat)
                        },
                    }
                }
            },
            _ => Err(FsError::WrongKind),
        }
    }
}

impl FS {
    /// Resolves a gate, following redirect gates up to the hop bound.  The
    /// caller's integrity must dominate the invoker clearance of every gate
    /// traversed, not only the terminal one.
    #[verifier::loop_isolation(false)]
    pub fn resolve_gate(&self, ctx: &Context, gate: u64) -> (r: Result<ResolvedGate, FsError>)
        ensures
            ({
                let s = spec_resolve(self.dents@, ctx.label@.integrity, gate, None, None,
                    MAX_HOPS as nat);
                &&& (s matches Ok(t) ==> (r matches Ok(rg) && rg.privilege@ == t.1
                    && rg.declassify@ == t.2 && (self.dents@[t.0 as int].entry matches
                    DirEntry::Gate(g) ==> (g.target matches GateTarget::Direct(f)
                    ==> rg.function == f))))
                &&& (s matches Err(e) ==> r == Err::<ResolvedGate, FsError>(e))
            }),
    {
        let mut cur = gate;
        let mut fuel: u64 = MAX_HOPS;
        let mut acc_priv = Component::dc_false();
        let mut acc_decl = Component::dc_false();
        loop
            invariant
                spec_resolve(self.dents@, ctx.label@.integrity, gate, None, None,
                    MAX_HOPS as nat) == spec_resolve(self.dents@, ctx.label@.integrity, cur,
                    acc_priv@, acc_decl@, fuel as nat),
            decreases fuel,
        {
            if cur >= self.dents.len() as u64 {
                return Err(FsError::NotFound);
            }
            match &self.dents[cur as usize].entry {
                DirEntry::Gate(g) => {
                    if !ctx.label.integrity.implies(&g.invoker_integrity_clearance) {
                        return Err(FsError::LabelViolation);
                    }
                    let np = acc_priv.meet(&g.privilege);
                    let ndc = acc_decl.meet(&g.declassify);
                    match &g.target {
                        GateTarget::Direct(f) => {
                            return Ok(ResolvedGate {
                                function: clone_function(f),
                                privilege: np,
                                declassify: ndc,
                            });
                        },
                        GateTarget::Redirect(nxt) => {
                            if fuel == 0 {
                                return Err(FsError::TooManyHops);
                            }
                            acc_priv = np;
                            acc_decl = ndc;
                            cur = *nxt;
                            fuel = fuel - 1;
                        },
                    }
                },
                _ => {
                    return Err(FsError::WrongKind);
                },
            }
        }
    }

    /// Checks a service invocation and hands back what the caller needs to
    /// make the outbound call: the service's address and the label to stamp
    /// on any result, the service's taint joined with the caller's label.
    pub fn invoke_service(&self, ctx: &Context, id: u64) -> (r: Result<ServiceInvocation, FsError>)
        ensures
            !valid_id(self.dents@, id) ==> r == Err::<ServiceInvocation, FsError>(
                FsError::NotFound),
            valid_id(self.dents@, id) && !(self.dents@[id as int].entry is Service)
                ==> r == Err::<ServiceInvocation, FsError>(FsError::WrongKind),
            valid_id(self.dents@, id) ==> (self.dents@[id as int].entry matches
                DirEntry::Service(s) ==> {
                &&& (!comp_implies(ctx.label@.integrity, s.invoker_integrity_clearance@)
                    ==> r == Err::<ServiceInvocation, FsError>(FsError::LabelViolation))
                &&& (comp_implies(ctx.label@.integrity, s.invoker_integrity_clearance@)
                    ==> (r matches Ok(si) && si.url == s.url && si.verb == s.verb && si.headers@
                    == s.headers@ && si.result_label@.secrecy == spec_join(s.taint@.secrecy,
                    ctx.label@.secrecy) && si.result_label@.integrity == spec_meet(
                    s.taint@.integrity, ctx.label@.integrity)))
            }),
    {
        if id >= self.dents.len() as u64 {
            return Err(FsError::NotFound);
        }
        match &self.dents[id as usize].entry {
            DirEntry::Service(s) => {
                if !ctx.label.integrity.implies(&s.invoker_integrity_clearance) {
                    return Err(FsError::LabelViolation);
                }
                Ok(ServiceInvocation {
                    url: s.url.clone(),
                    verb: s.verb,
                    headers: clone_headers(&s.headers),
                    result_label: s.taint.lub(&ctx.label),
                })
            },
            _ => Err(FsError::WrongKind),
        }
    }
}

/// What an outbound service call hands to the I/O layer: the address to
/// call and the label its result must carry.
pub struct ServiceInvocation {
    pub url: String,
    pub verb: i32,
    pub headers: Vec<(String, String)>,
    pub result_label: Buckle,
}

/// A set of gate identifiers closed under redirection — every member a
/// redirect gate whose clearance the caller passes and whose target is a
/// member again, as in any redirect cycle — can never resolve: for any fuel
/// and any accumulated authority, resolution from inside the set fails with
/// the hop-bound error rather than recursing unboundedly.
pub open spec fn redirect_trap(d: Seq<Dent>, cint: ComponentV, ids: Set<u64>) -> bool {
    forall|id: u64| #[trigger] ids.contains(id) ==> valid_id(d, id) && (d[id as int].entry matches
        DirEntry::Gate(g) && comp_implies(cint, g.invoker_integrity_clearance@) && (g.target
        matches GateTarget::Redirect(nxt) && ids.contains(nxt)))
}

/// A redirect cycle fails with the bounded-hops error.
pub proof fn lemma_redirect_cycle_bounded(d: Seq<Dent>, cint: ComponentV, ids: Set<u64>, id: u64, acc_priv: ComponentV, acc_decl: ComponentV, fuel: nat)
    requires
        redirect_trap(d, cint, ids),
        ids.contains(id),
    ensures
        spec_resolve(d, cint, id, acc_priv, acc_decl, fuel) == Err::<
            (u64, ComponentV, ComponentV),
            FsError,
        >(FsError::TooManyHops),
    decreases fuel,
{
    if fuel > 0 {
        if let DirEntry::Gate(g) = d[id as int].entry {
            if let GateTarget::Redirect(nxt) = g.target {
                lemma_redirect_cycle_bounded(d, cint, ids, nxt, spec_meet(acc_priv,
                    g.privilege@), spec_meet(acc_decl, g.declassify@), (fuel - 1) as nat);
            }
        }
    }
}

/// Opening a facet that a label does not dominate is denied identically —
/// same error, no state change — whether or not the facet exists: for any
/// two faceted-directory states, the non-dominating observer sees the same
/// outcome, so facet existence never leaks.
pub proof fn lemma_facet_privacy(d1: Seq<Dent>, d2: Seq<Dent>, clabel: BuckleV, cpriv: ComponentV, parent: u64, facet: BuckleV)
    requires
        is_faceted(d1, parent),
        is_faceted(d2, parent),
        !dominates(clabel, cpriv, facet),
    ensures
        spec_open_facet(d1, clabel, cpriv, parent, facet) == spec_open_facet(d2, clabel, cpriv,
            parent, facet),
        spec_open_facet(d1, clabel, cpriv, parent, facet) == Err::<u64, FsError>(
            FsError::NotFound),
{
}

} // verus!

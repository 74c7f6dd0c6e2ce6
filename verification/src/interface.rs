//! The wire-facing namespace interface: open and create requests, their
//! result messages, the integer dent-kind codes, and the checked
//! conversions from wire gates and services into namespace entries.  A wire
//! message may miss a required sub-message; each conversion then yields
//! nothing, so malformed input fails at this boundary and never inside the
//! algebra or the namespace.

use vstd::prelude::*;
use crate::buckle::{Buckle, Component};
use crate::dent_create;
use crate::dent_open;
use crate::fs::{CreateKind, DirEntry, GateTarget};
use crate::gate;

verus! {

/// An open request: the base entry and what to select under it.
pub struct DentOpen {
    pub fd: u64,
    pub entry: Option<dent_open::Entry>,
}

/// A create request: the label asked for and the kind of entry.
pub struct DentCreate {
    pub label: Option<Buckle>,
    pub kind: Option<dent_create::Kind>,
}

/// The wire form of a gate create request.
pub struct Gate {
    pub kind: Option<gate::Kind>,
}

/// A direct gate on the wire: every field is a required sub-message.
pub struct DirectGate {
    pub privilege: Option<Component>,
    pub invoker_integrity_clearance: Option<Component>,
    pub function: Option<crate::fs::Function>,
    pub declassify: Option<Component>,
}

/// A redirect gate on the wire.
pub struct RedirectGate {
    pub privilege: Option<Component>,
    pub invoker_integrity_clearance: Option<Component>,
    pub gate: u64,
    pub declassify: Option<Component>,
}

/// A service on the wire; headers travel as name–value pairs.
pub struct Service {
    pub privilege: Option<Component>,
    pub invoker_integrity_clearance: Option<Component>,
    pub taint: Option<Buckle>,
    pub url: String,
    pub verb: i32,
    pub headers: Vec<(String, String)>,
}

/// The result of a namespace operation: success, and where applicable the
/// entry touched and the data read.
pub struct DentResult {
    pub success: bool,
    pub fd: Option<u64>,
    pub data: Option<Vec<u8>>,
}

/// The result of an open: the handle and the kind code of what it names.
pub struct DentOpenResult {
    pub success: bool,
    pub fd: u64,
    pub kind: i32,
}

/// The six kinds of namespace entry, with their wire codes.
#[derive(Clone, Copy, Debug, PartialEq, Eq, Structural)]
pub enum DentKind {
    DentDirectory,
    DentFile,
    DentFacetedDirectory,
    DentGate,
    DentService,
    DentBlob,
}

/// The kind of a namespace entry.
pub open spec fn spec_kind_of(e: DirEntry) -> DentKind {
    match e {
        DirEntry::Directory(_) => DentKind::DentDirectory,
        DirEntry::File(_) => DentKind::DentFile,
        DirEntry::FacetedDirectory(_) => DentKind::DentFacetedDirectory,
        DirEntry::Gate(_) => DentKind::DentGate,
        DirEntry::Service(_) => DentKind::DentService,
        DirEntry::Blob(_) => DentKind::DentBlob,
    }
}

impl DentKind {
    pub fn from(item: &DirEntry) -> (r: DentKind)
        ensures
            r == spec_kind_of(*item),
    {
        match item {
            DirEntry::Directory(_) => DentKind::DentDirectory,
            DirEntry::File(_) => DentKind::DentFile,
            DirEntry::Gate(_) => DentKind::DentGate,
            DirEntry::Blob(_) => DentKind::DentBlob,
            DirEntry::FacetedDirectory(_) => DentKind::DentFacetedDirectory,
            DirEntry::Service(_) => DentKind::DentService,
        }
    }

    /// The wire code of each kind.
    pub open spec fn spec_code(self) -> i32 {
        match self {
            DentKind::DentDirectory => 0,
            DentKind::DentFile => 1,
            DentKind::DentFacetedDirectory => 2,
            DentKind::DentGate => 3,
            DentKind::DentService => 4,
            DentKind::DentBlob => 5,
        }
    }

    pub fn into(self) -> (r: i32)
        ensures
            r == self.spec_code(),
    {
        match self {
            DentKind::DentDirectory => 0,
            DentKind::DentFile => 1,
            DentKind::DentFacetedDirectory => 2,
            DentKind::DentGate => 3,
            DentKind::DentService => 4,
            DentKind::DentBlob => 5,
        }
    }
}

/// The namespace gate a wire gate parses to, if every required
/// sub-message is present.
pub open spec fn spec_parse_gate(g: Gate) -> Option<crate::fs::Gate> {
    match g.kind {
        None => None,
        Some(gate::Kind::Direct(dg)) => match (dg.privilege, dg.invoker_integrity_clearance,
            dg.function, dg.declassify) {
            (Some(p), Some(c), Some(f), Some(d)) => Some(crate::fs::Gate {
                privilege: p,
                invoker_integrity_clearance: c,
                declassify: d,
                target: GateTarget::Direct(f),
            }),
            _ => None,
        },
        Some(gate::Kind::Redirect(rg)) => match (rg.privilege, rg.invoker_integrity_clearance,
            rg.declassify) {
            (Some(p), Some(c), Some(d)) => Some(crate::fs::Gate {
                privilege: p,
                invoker_integrity_clearance: c,
                declassify: d,
                target: GateTarget::Redirect(rg.gate),
            }),
            _ => None,
        },
    }
}

/// The namespace service a wire service parses to, if every required
/// sub-message is present.
pub open spec fn spec_parse_service(s: Service) -> Option<crate::fs::Service> {
    match (s.privilege, s.invoker_integrity_clearance, s.taint) {
        (Some(p), Some(c), Some(t)) => Some(crate::fs::Service {
            privilege: p,
            invoker_integrity_clearance: c,
            taint: t,
            url: s.url,
            verb: s.verb,
            headers: s.headers,
        }),
        _ => None,
    }
}

/// The namespace kind a wire kind parses to.
pub open spec fn spec_parse_kind(k: dent_create::Kind) -> Option<CreateKind> {
    match k {
        dent_create::Kind::Directory => Some(CreateKind::Directory),
        dent_create::Kind::File => Some(CreateKind::File),
        dent_create::Kind::FacetedDirectory => Some(CreateKind::FacetedDirectory),
        dent_create::Kind::Blob => Some(CreateKind::Blob),
        dent_create::Kind::Gate(g) => match spec_parse_gate(g) {
            Some(ge) => Some(CreateKind::Gate(ge)),
            None => None,
        },
        dent_create::Kind::Service(s) => match spec_parse_service(s) {
            Some(se) => Some(CreateKind::Service(se)),
            None => None,
        },
    }
}

/// The label and kind a create request parses to, if its label, its kind
/// and every required sub-message are present.
pub open spec fn spec_parse_create(dc: DentCreate) -> Option<(Buckle, CreateKind)> {
    match (dc.label, dc.kind) {
        (Some(l), Some(k)) => match spec_parse_kind(k) {
            Some(c) => Some((l, c)),
            None => None,
        },
        _ => None,
    }
}

impl Gate {
    /// Converts a wire gate into a namespace gate entry; a missing required
    /// sub-message yields nothing.
    pub fn to_entry(self) -> (r: Option<crate::fs::Gate>)
        ensures
            r == spec_parse_gate(self),
    {
        match self.kind {
            None => None,
            Some(gate::Kind::Direct(dg)) => match (dg.privilege, dg.invoker_integrity_clearance,
                dg.function, dg.declassify) {
                (Some(p), Some(c), Some(f), Some(d)) => Some(crate::fs::Gate {
                    privilege: p,
                    invoker_integrity_clearance: c,
                    declassify: d,
                    target: GateTarget::Direct(f),
                }),
                _ => None,
            },
            Some(gate::Kind::Redirect(rg)) => match (rg.privilege,
                rg.invoker_integrity_clearance, rg.declassify) {
                (Some(p), Some(c), Some(d)) => Some(crate::fs::Gate {
                    privilege: p,
                    invoker_integrity_clearance: c,
                    declassify: d,
                    target: GateTarget::Redirect(rg.gate),
                }),
                _ => None,
            },
        }
    }
}

impl Service {
    /// Converts a wire service into a namespace service entry; a missing
    /// required sub-message yields nothing.
    pub fn to_entry(self) -> (r: Option<crate::fs::Service>)
        ensures
            r == spec_parse_service(self),
    {
        match (self.privilege, self.invoker_integrity_clearance, self.taint) {
            (Some(p), Some(c), Some(t)) => Some(crate::fs::Service {
                privilege: p,
                invoker_integrity_clearance: c,
                taint: t,
                url: self.url,
                verb: self.verb,
                headers: self.headers,
            }),
            _ => None,
        }
    }
}

impl DentCreate {
    /// Splits a create request into the requested label and the namespace
    /// kind; a missing or malformed part yields nothing.
    pub fn into_parts(self) -> (r: Option<(Buckle, CreateKind)>)
        ensures
            r == spec_parse_create(self),
    {
        let label = match self.label {
            Some(l) => l,
            None => {
                return None;
            },
        };
        match self.kind {
            None => None,
            Some(dent_create::Kind::Directory) => Some((label, CreateKind::Directory)),
            Some(dent_create::Kind::File) => Some((label, CreateKind::File)),
            Some(dent_create::Kind::FacetedDirectory) => Some(
                (label, CreateKind::FacetedDirectory),
            ),
            Some(dent_create::Kind::Blob) => Some((label, CreateKind::Blob)),
            Some(dent_create::Kind::Gate(g)) => match g.to_entry() {
                Some(ge) => Some((label, CreateKind::Gate(ge))),
                None => None,
            },
            Some(dent_create::Kind::Service(s)) => match s.to_entry() {
                Some(se) => Some((label, CreateKind::Service(se))),
                None => None,
            },
        }
    }
}

/// Serves an open request: a plain name under a directory, or a facet
/// under a faceted directory; a request with no selector fails.  The result
/// carries the handle and the kind code of the entry it names.
pub fn open(fs: &mut crate::fs::FS, ctx: &crate::fs::Context, req: DentOpen) -> (r: DentOpenResult)
    ensures
        req.entry is None ==> !r.success && final(fs).dents@ == old(fs).dents@,
        req.entry matches Some(dent_open::Entry::Name(n)) ==> {
            &&& final(fs).dents@ == old(fs).dents@
            &&& (r.success <==> (crate::fs::spec_open_name(old(fs).dents@, req.fd, n@)
                matches Ok(id) && crate::fs::valid_id(old(fs).dents@, id)))
            &&& (r.success ==> (crate::fs::spec_open_name(old(fs).dents@, req.fd, n@)
                matches Ok(id) && r.fd == id && r.kind == spec_kind_of(old(fs).dents@[
                id as int].entry).spec_code()))
        },
        req.entry matches Some(dent_open::Entry::Facet(f)) ==> {
            &&& (r.success <==> crate::fs::spec_open_facet(old(fs).dents@, ctx.label@,
                ctx.privilege@, req.fd, f@) is Ok)
            &&& (r.success ==> crate::fs::spec_open_facet(old(fs).dents@, ctx.label@,
                ctx.privilege@, req.fd, f@) == Ok::<u64, crate::fs::FsError>(r.fd))
            &&& (r.success && crate::fs::valid_id(final(fs).dents@, r.fd) ==> r.kind
                == spec_kind_of(final(fs).dents@[r.fd as int].entry).spec_code())
            &&& (!r.success ==> final(fs).dents@ == old(fs).dents@)
        },
{
    match req.entry {
        None => DentOpenResult { success: false, fd: 0, kind: 0 },
        Some(dent_open::Entry::Name(n)) => match fs.open_name(req.fd, &n) {
            Ok(id) => {
                if id >= fs.dents.len() as u64 {
                    // the name table held a dangling identifier
                    return DentOpenResult { success: false, fd: 0, kind: 0 };
                }
                DentOpenResult {
                    success: true,
                    fd: id,
                    kind: DentKind::from(&fs.dents[id as usize].entry).into(),
                }
            },
            Err(_) => DentOpenResult { success: false, fd: 0, kind: 0 },
        },
        Some(dent_open::Entry::Facet(f)) => match fs.open_facet(ctx, req.fd, &f) {
            Ok(id) => {
                let kind = if id < fs.dents.len() as u64 {
                    DentKind::from(&fs.dents[id as usize].entry).into()
                } else {
                    0
                };
                DentOpenResult { success: true, fd: id, kind }
            },
            Err(_) => DentOpenResult { success: false, fd: 0, kind: 0 },
        },
    }
}

/// Serves a create request under a directory.  A request missing its label
/// or kind, or whose gate or service payload misses a required sub-message,
/// fails at this boundary; otherwise the namespace decides exactly as
/// `FS::create` does on the parsed label and kind.
pub fn create(fs: &mut crate::fs::FS, ctx: &crate::fs::Context, parent: u64, name: String, req: DentCreate) -> (r: DentResult)
    ensures
        r.data is None,
        spec_parse_create(req) is None ==> !r.success && final(fs).dents@ == old(fs).dents@,
        spec_parse_create(req) matches Some(pc) ==> {
            let res = crate::fs::spec_create_result(old(fs).dents@, *ctx, parent, name@, pc.0,
                pc.1);
            &&& (r.success <==> res is Ok)
            &&& (res matches Ok(id) ==> r.fd == Some(id) && crate::fs::valid_id(final(
                fs).dents@, id))
            &&& (!r.success ==> final(fs).dents@ == old(fs).dents@)
            &&& (crate::fs::is_directory(old(fs).dents@, parent) ==> (old(fs).dents@[
                parent as int].entry matches DirEntry::Directory(dir) ==> {
                &&& (crate::fs::name_find(dir.entries@, name@) is Some ==> final(fs).dents@
                    == old(fs).dents@)
                &&& (r.success && crate::fs::name_find(dir.entries@, name@) is None ==> {
                    &&& final(fs).dents@.len() == old(fs).dents@.len() + 1
                    &&& final(fs).dents@[old(fs).dents@.len() as int].label == pc.0
                    &&& crate::fs::same_kind(pc.1, final(fs).dents@[old(
                        fs).dents@.len() as int].entry)
                    &&& (final(fs).dents@[parent as int].entry matches DirEntry::Directory(
                        ndir) && ndir.entries@ == dir.entries@.push(
                        (name, old(fs).dents@.len() as u64)))
                    &&& final(fs).dents@[parent as int].label == old(fs).dents@[
                        parent as int].label
                    &&& forall|k: int| 0 <= k < old(fs).dents@.len() && k != parent
                        ==> final(fs).dents@[k] == old(fs).dents@[k]
                })
            }))
        },
{
    let ghost d0 = fs.dents@;
    let ghost gname = name;
    match req.into_parts() {
        None => DentResult { success: false, fd: None, data: None },
        Some((label, kind)) => {
            let ghost glabel = label;
            let ghost gkind = kind;
            match fs.create(ctx, parent, name, label, kind) {
                Ok(id) => {
                    proof {
                        assert(crate::fs::spec_create_result(d0, *ctx, parent, gname@, glabel,
                            gkind) == Ok::<u64, crate::fs::FsError>(id));
                        if !crate::fs::valid_id(fs.dents@, id) {
                            assert(false);
                        }
                    }
                    DentResult { success: true, fd: Some(id), data: None }
                },
                Err(_) => DentResult { success: false, fd: None, data: None },
            }
        },
    }
}

} // verus!
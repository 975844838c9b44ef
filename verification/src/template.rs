//! Templates and the schematics attached to them.

use vstd::prelude::*;

verus! {

/// The mathematical content of a [`Schematic`].
pub ghost struct SchematicView {
    /// Stable type identifier used for dispatch.
    pub kind: u64,
    /// Opaque serialized payload handed to the host when the schematic is
    /// applied.
    pub payload: Seq<u8>,
    /// Identifier of a nested template this schematic depends on, if any.
    pub dependency: Option<Seq<char>>,
    /// Whether a nested dependency is applied to a freshly created child
    /// object rather than to the same object.
    pub spawn_child: bool,
}

/// One typed, declarative unit of behaviour attached to a template.
///
/// A schematic carries a stable type identifier (used to dispatch to the
/// host's behaviour table), an opaque serialized payload, and optionally the
/// identifier of another template it depends on. Schematics are immutable
/// once attached to a template and are copied into each per-request plan.
pub struct Schematic {
    /// Stable type identifier used for dispatch.
    pub kind: u64,
    /// Opaque serialized payload inserted into the target object as a
    /// capability when the schematic is applied.
    pub payload: Vec<u8>,
    /// Identifier of a nested template this schematic depends on, if any.
    pub dependency: Option<String>,
    /// When `true`, a nested dependency is applied to a freshly created
    /// child object; when `false`, to the same object as this schematic.
    pub spawn_child: bool,
}

impl View for Schematic {
    type V = SchematicView;

    open spec fn view(&self) -> SchematicView {
        SchematicView {
            kind: self.kind,
            payload: self.payload@,
            dependency: match self.dependency {
                Option::Some(d) => Option::Some(d@),
                Option::None => Option::None,
            },
            spawn_child: self.spawn_child,
        }
    }
}

impl Schematic {
    /// A schematic with a payload only: no nested dependency.
    pub fn leaf(kind: u64, payload: Vec<u8>) -> (r: Schematic)
        ensures
            r@ == (SchematicView {
                kind,
                payload: payload@,
                dependency: Option::<Seq<char>>::None,
                spawn_child: false,
            }),
    {
        Schematic { kind, payload, dependency: Option::None, spawn_child: false }
    }

    /// A schematic that depends on the template named `dependency`.
    pub fn depends_on(kind: u64, payload: Vec<u8>, dependency: String, spawn_child: bool) -> (r:
        Schematic)
        ensures
            r@ == (SchematicView {
                kind,
                payload: payload@,
                dependency: Option::Some(dependency@),
                spawn_child,
            }),
    {
        Schematic { kind, payload, dependency: Option::Some(dependency), spawn_child }
    }
}

/// An owned copy of a serialized payload.
pub fn clone_payload(v: &Vec<u8>) -> (r: Vec<u8>)
    ensures
        r@ == v@,
{
    let mut r: Vec<u8> = Vec::new();
    let n = v.len();
    let mut i: usize = 0;
    while i < n
        invariant
            n == v@.len(),
            i <= n,
            r@ == v@.subrange(0, i as int),
        decreases n - i,
    {
        r.push(v[i]);
        proof {
            assert(r@ =~= v@.subrange(0, i + 1 as int));
        }
        i = i + 1;
    }
    proof {
        assert(r@ =~= v@);
    }
    r
}

/// The views of the schematics in `s`, in order.
pub open spec fn schematics_view(s: Seq<Schematic>) -> Seq<SchematicView> {
    Seq::new(s.len(), |i: int| s[i]@)
}

/// The mathematical content of a [`Template`].
pub ghost struct TemplateView {
    /// Unique identifier within the store.
    pub id: Seq<char>,
    /// Opaque handle preserved across reloads.
    pub handle: u64,
    /// The ordered schematics of the template.
    pub schematics: Seq<SchematicView>,
}

/// A named, reloadable bundle of schematics (a "prototype").
///
/// The `id` is the unique key within a [`crate::store::TemplateStore`]; the
/// `handle` is the opaque identity the host's asset system uses, preserved
/// across reloads.
pub struct Template {
    /// Unique identifier within the store.
    pub id: String,
    /// Opaque handle preserved across reloads.
    pub handle: u64,
    /// The ordered schematics of the template.
    pub schematics: Vec<Schematic>,
}

impl View for Template {
    type V = TemplateView;

    open spec fn view(&self) -> TemplateView {
        TemplateView {
            id: self.id@,
            handle: self.handle,
            schematics: schematics_view(self.schematics@),
        }
    }
}

} // verus!

//! The registry of loaded templates, keyed by identifier.

use vstd::prelude::*;

use crate::error::{ProtoError, ProtoErrorView};
use crate::template::{Schematic, Template, TemplateView};

verus! {

/// No two entries share an identifier.
pub open spec fn ids_unique(s: Seq<TemplateView>) -> bool {
    forall|i: int, j: int| 0 <= i < j < s.len() ==> s[i].id != s[j].id
}

/// Some entry carries the identifier `id`.
pub open spec fn contains_id(s: Seq<TemplateView>, id: Seq<char>) -> bool {
    exists|i: int| 0 <= i < s.len() && s[i].id == id
}

/// The registry of loaded templates.
///
/// Invariant: identifiers are unique, so each identifier names at most one
/// entry at any instant. A reload replaces the schematics under the same
/// identifier and handle without changing the entry's identity or position.
pub struct TemplateStore {
    templates: Vec<Template>,
}

impl View for TemplateStore {
    type V = Seq<TemplateView>;

    closed spec fn view(&self) -> Seq<TemplateView> {
        Seq::new(self.templates@.len(), |i: int| self.templates@[i]@)
    }
}

impl TemplateStore {
    /// The store invariant: identifiers are pairwise distinct.
    pub open spec fn wf(&self) -> bool {
        ids_unique(self@)
    }

    /// An empty store.
    pub fn new() -> (r: TemplateStore)
        ensures
            r@ == Seq::<TemplateView>::empty(),
            r.wf(),
    {
        let r = TemplateStore { templates: Vec::new() };
        proof {
            assert(r@ =~= Seq::<TemplateView>::empty());
        }
        r
    }

    /// How many templates are loaded.
    pub fn len(&self) -> (r: usize)
        ensures
            r == self@.len(),
    {
        self.templates.len()
    }

    /// The position of the entry named `id`, if one is loaded.
    fn find_index(&self, id: &String) -> (r: Option<usize>)
        ensures
            match r {
                Option::Some(i) => i < self@.len() && self@[i as int].id == id@,
                Option::None => !contains_id(self@, id@),
            },
    {
        let n = self.templates.len();
        let mut j: usize = 0;
        while j < n
            invariant
                n == self@.len(),
                j <= n,
                forall|k: int| 0 <= k < j ==> self@[k].id != id@,
            decreases n - j,
        {
            if self.templates[j].id == *id {
                return Option::Some(j);
            }
            j = j + 1;
        }
        Option::None
    }

    /// Read-only fetch by identifier; nothing if absent.
    pub fn lookup(&self, id: &String) -> (r: Option<&Template>)
        ensures
            match r {
                Option::Some(t) => contains_id(self@, id@) && t@.id == id@ && exists|i: int|
                    0 <= i < self@.len() && self@[i] == t@,
                Option::None => !contains_id(self@, id@),
            },
    {
        match self.find_index(id) {
            Option::Some(i) => {
                proof {
                    assert(0 <= i < self@.len() && self@[i as int] == self.templates@[i as int]@);
                }
                Option::Some(&self.templates[i])
            },
            Option::None => Option::None,
        }
    }

    /// Read-only fetch by handle; nothing if no loaded template carries it.
    pub fn lookup_by_handle(&self, handle: u64) -> (r: Option<&Template>)
        ensures
            match r {
                Option::Some(t) => t@.handle == handle && exists|i: int|
                    0 <= i < self@.len() && self@[i] == t@,
                Option::None => forall|i: int| 0 <= i < self@.len() ==> self@[i].handle != handle,
            },
    {
        let n = self.templates.len();
        let mut j: usize = 0;
        while j < n
            invariant
                n == self@.len(),
                j <= n,
                forall|k: int| 0 <= k < j ==> self@[k].handle != handle,
            decreases n - j,
        {
            if self.templates[j].handle == handle {
                proof {
                    assert(0 <= j < self@.len() && self@[j as int] == self.templates@[j as int]@);
                }
                return Option::Some(&self.templates[j]);
            }
            j = j + 1;
        }
        Option::None
    }

    /// Whether a template named `id` is loaded.
    pub fn contains(&self, id: &String) -> (r: bool)
        ensures
            r == contains_id(self@, id@),
    {
        match self.find_index(id) {
            Option::Some(_) => true,
            Option::None => false,
        }
    }

    /// Insert a new entry. Fails with
    /// [`ProtoError::DuplicateId`] when `id` is already present, leaving the
    /// store unchanged.
    pub fn insert(&mut self, id: String, handle: u64, schematics: Vec<Schematic>) -> (r: Result<
        (),
        ProtoError,
    >)
        requires
            old(self).wf(),
        ensures
            final(self).wf(),
            match r {
                Result::Ok(()) => !contains_id(old(self)@, id@) && final(self)@ == old(self)@.push(
                    (Template { id, handle, schematics })@,
                ),
                Result::Err(e) => contains_id(old(self)@, id@) && final(self)@ == old(self)@
                    && e@ == (ProtoErrorView::DuplicateId { id: id@ }),
            },
    {
        if self.contains(&id) {
            return Result::Err(ProtoError::DuplicateId { id });
        }
        let ghost pre = self@;
        let t = Template { id, handle, schematics };
        let ghost tv = t@;
        self.templates.push(t);
        proof {
            assert(self@ =~= pre.push(tv));
        }
        Result::Ok(())
    }

    /// Replace the schematics of the entry named `id`, preserving its
    /// identifier, handle and position. Fails with
    /// [`ProtoError::UnknownTemplate`] when no such entry is loaded, leaving
    /// the store unchanged.
    pub fn replace_schematics(&mut self, id: &String, schematics: Vec<Schematic>) -> (r: Result<
        u64,
        ProtoError,
    >)
        requires
            old(self).wf(),
        ensures
            final(self).wf(),
            match r {
                Result::Ok(handle) => contains_id(old(self)@, id@) && exists|i: int|
                    0 <= i < old(self)@.len() && old(self)@[i].id == id@ && old(self)@[i].handle
                        == handle && final(self)@ == old(self)@.update(
                        i,
                        TemplateView {
                            id: old(self)@[i].id,
                            handle: old(self)@[i].handle,
                            schematics: crate::template::schematics_view(schematics@),
                        },
                    ),
                Result::Err(e) => !contains_id(old(self)@, id@) && final(self)@ == old(self)@
                    && e@ == (ProtoErrorView::UnknownTemplate { id: id@ }),
            },
            forall|j: int|
                0 <= j < old(self)@.len() ==> final(self)@[j].id == old(self)@[j].id
                    && final(self)@[j].handle == old(self)@[j].handle,
            final(self)@.len() == old(self)@.len(),
    {
        let ghost pre = self@;
        match self.find_index(id) {
            Option::Some(i) => {
                let handle = self.templates[i].handle;
                let ghost entry = self@[i as int];
                let old_id = self.templates.remove(i);
                let fresh = Template { id: old_id.id, handle: old_id.handle, schematics };
                let ghost fv = fresh@;
                self.templates.insert(i, fresh);
                proof {
                    assert(self@ =~= pre.update(
                        i as int,
                        TemplateView { id: entry.id, handle: entry.handle, schematics: fv.schematics },
                    ));
                    assert(ids_unique(self@));
                }
                Result::Ok(handle)
            },
            Option::None => Result::Err(
                ProtoError::UnknownTemplate { id: clone_string(id) },
            ),
        }
    }

    /// Remove and return the entry named `id`. Fails with
    /// [`ProtoError::UnknownTemplate`] when no such entry is loaded, leaving
    /// the store unchanged.
    pub fn remove(&mut self, id: &String) -> (r: Result<Template, ProtoError>)
        requires
            old(self).wf(),
        ensures
            final(self).wf(),
            match r {
                Result::Ok(t) => t@.id == id@ && exists|i: int|
                    0 <= i < old(self)@.len() && old(self)@[i] == t@ && final(self)@ == old(
                        self,
                    )@.remove(i),
                Result::Err(e) => !contains_id(old(self)@, id@) && final(self)@ == old(self)@
                    && e@ == (ProtoErrorView::UnknownTemplate { id: id@ }),
            },
    {
        let ghost pre = self@;
        match self.find_index(id) {
            Option::Some(i) => {
                let t = self.templates.remove(i);
                proof {
                    assert(self@ =~= pre.remove(i as int));
                }
                Result::Ok(t)
            },
            Option::None => Result::Err(
                ProtoError::UnknownTemplate { id: clone_string(id) },
            ),
        }
    }
}

/// An owned copy of a borrowed identifier.
pub fn clone_string(s: &String) -> (r: String)
    ensures
        r@ == s@,
{
    s.clone()
}

} // verus!

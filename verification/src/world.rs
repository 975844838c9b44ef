//! A model of the host's object store.
//!
//! Objects are named by the index at which they were created and are never
//! destroyed by the engine, so an object name is a position in the store.
//! Each object carries a set of typed capabilities, at most one per type
//! identifier: inserting a capability of a kind the object already has
//! replaces its payload in place.

use vstd::prelude::*;

verus! {

/// The mathematical content of a [`Capability`].
pub ghost struct CapabilityView {
    /// Type identifier of the capability.
    pub kind: u64,
    /// The payload the capability carries.
    pub payload: Seq<u8>,
}

/// One typed capability held by an object.
pub struct Capability {
    /// Type identifier of the capability.
    pub kind: u64,
    /// The payload the capability carries.
    pub payload: Vec<u8>,
}

impl View for Capability {
    type V = CapabilityView;

    open spec fn view(&self) -> CapabilityView {
        CapabilityView { kind: self.kind, payload: self.payload@ }
    }
}

/// Whether `caps` holds a capability of type `kind`.
pub open spec fn has_cap(caps: Seq<CapabilityView>, kind: u64) -> bool {
    exists|i: int| 0 <= i < caps.len() && caps[i].kind == kind
}

/// The position of the capability of type `kind`; meaningful only when
/// [`has_cap`] holds and kinds are unique.
pub open spec fn cap_index(caps: Seq<CapabilityView>, kind: u64) -> int {
    choose|i: int| 0 <= i < caps.len() && caps[i].kind == kind
}

/// At most one capability per type identifier.
pub open spec fn caps_unique(caps: Seq<CapabilityView>) -> bool {
    forall|i: int, j: int| 0 <= i < j < caps.len() ==> caps[i].kind != caps[j].kind
}

/// `caps` after inserting a capability: replacement in place when the kind
/// is already held, appended at the end otherwise.
pub open spec fn caps_insert(caps: Seq<CapabilityView>, kind: u64, payload: Seq<u8>) -> Seq<
    CapabilityView,
> {
    let c = CapabilityView { kind, payload };
    if has_cap(caps, kind) {
        caps.update(cap_index(caps, kind), c)
    } else {
        caps.push(c)
    }
}

/// `caps` after removing the capability of type `kind`, if held.
pub open spec fn caps_remove(caps: Seq<CapabilityView>, kind: u64) -> Seq<CapabilityView> {
    if has_cap(caps, kind) {
        caps.remove(cap_index(caps, kind))
    } else {
        caps
    }
}

/// The world after inserting a capability into object `o`.
pub open spec fn world_insert(
    w: Seq<Seq<CapabilityView>>,
    o: int,
    kind: u64,
    payload: Seq<u8>,
) -> Seq<Seq<CapabilityView>> {
    w.update(o, caps_insert(w[o], kind, payload))
}

/// The world after removing a capability from object `o`.
pub open spec fn world_remove(w: Seq<Seq<CapabilityView>>, o: int, kind: u64) -> Seq<
    Seq<CapabilityView>,
> {
    w.update(o, caps_remove(w[o], kind))
}

/// Every object holds at most one capability per type identifier.
pub open spec fn world_wf(w: Seq<Seq<CapabilityView>>) -> bool {
    forall|o: int| 0 <= o < w.len() ==> caps_unique(#[trigger] w[o])
}

/// The store of live objects and their capabilities, standing in for the
/// host's runtime.
pub struct ProtoWorld {
    objects: Vec<Vec<Capability>>,
}

impl View for ProtoWorld {
    type V = Seq<Seq<CapabilityView>>;

    closed spec fn view(&self) -> Seq<Seq<CapabilityView>> {
        Seq::new(
            self.objects@.len(),
            |o: int| Seq::new(self.objects@[o]@.len(), |j: int| self.objects@[o]@[j]@),
        )
    }
}

impl ProtoWorld {
    /// The world invariant: capability kinds are unique per object.
    pub open spec fn wf(&self) -> bool {
        world_wf(self@)
    }

    /// A world with no objects.
    pub fn new() -> (r: ProtoWorld)
        ensures
            r@ == Seq::<Seq<CapabilityView>>::empty(),
            r.wf(),
    {
        let r = ProtoWorld { objects: Vec::new() };
        proof {
            assert(r@ =~~= Seq::<Seq<CapabilityView>>::empty());
        }
        r
    }

    /// How many objects exist.
    pub fn len(&self) -> (r: usize)
        ensures
            r == self@.len(),
    {
        self.objects.len()
    }

    /// Create a fresh object with no capabilities; its name is its position.
    pub fn spawn(&mut self) -> (o: usize)
        ensures
            o == old(self)@.len(),
            final(self)@ == old(self)@.push(Seq::<CapabilityView>::empty()),
            old(self).wf() ==> final(self).wf(),
    {
        let ghost pre = self@;
        let o = self.objects.len();
        self.objects.push(Vec::new());
        proof {
            assert(self@ =~~= pre.push(Seq::<CapabilityView>::empty()));
        }
        o
    }

    /// Whether object `o` holds a capability of type `kind`.
    pub fn has_capability(&self, o: usize, kind: u64) -> (r: bool)
        requires
            o < self@.len(),
        ensures
            r == has_cap(self@[o as int], kind),
    {
        let caps = &self.objects[o];
        let n = caps.len();
        let mut j: usize = 0;
        proof {
            assert(self@[o as int].len() == n);
        }
        while j < n
            invariant
                o < self@.len(),
                n == self@[o as int].len(),
                n == self.objects@[o as int]@.len(),
                j <= n,
                forall|k: int| 0 <= k < j ==> self@[o as int][k].kind != kind,
            decreases n - j,
        {
            if self.objects[o][j].kind == kind {
                proof {
                    assert(self@[o as int][j as int].kind == kind);
                }
                return true;
            }
            j = j + 1;
        }
        false
    }

    /// The payload of the capability of type `kind` on object `o`, if held.
    pub fn capability_payload(&self, o: usize, kind: u64) -> (r: Option<&Vec<u8>>)
        requires
            o < self@.len(),
            self.wf(),
        ensures
            match r {
                Option::Some(p) => has_cap(self@[o as int], kind) && p@ == self@[o as int][cap_index(
                    self@[o as int],
                    kind,
                )].payload,
                Option::None => !has_cap(self@[o as int], kind),
            },
    {
        let caps = &self.objects[o];
        let n = caps.len();
        let mut j: usize = 0;
        while j < n
            invariant
                o < self@.len(),
                self.wf(),
                n == self@[o as int].len(),
                n == self.objects@[o as int]@.len(),
                j <= n,
                forall|k: int| 0 <= k < j ==> self@[o as int][k].kind != kind,
            decreases n - j,
        {
            if self.objects[o][j].kind == kind {
                proof {
                    assert(self@[o as int][j as int].kind == kind);
                    assert(caps_unique(self@[o as int]));
                    let w = cap_index(self@[o as int], kind);
                    assert(0 <= w < n && self@[o as int][w].kind == kind);
                    assert(w == j as int);
                    assert(self.objects@[o as int]@[j as int]@ == self@[o as int][j as int]);
                }
                return Option::Some(&self.objects[o][j].payload);
            }
            j = j + 1;
        }
        Option::None
    }

    /// Insert a capability into object `o`, replacing any capability of the
    /// same kind in place.
    #[verifier::loop_isolation(false)]
    pub fn insert_capability(&mut self, o: usize, kind: u64, payload: Vec<u8>)
        requires
            o < old(self)@.len(),
            old(self).wf(),
        ensures
            final(self)@ == world_insert(old(self)@, o as int, kind, payload@),
            final(self)@.len() == old(self)@.len(),
            final(self).wf(),
    {
        let ghost pre = self@;
        let ghost pre_objs = self.objects@;
        let ghost precaps = self@[o as int];
        let mut caps = self.objects.remove(o);
        let n = caps.len();
        let mut j: usize = 0;
        proof {
            assert(precaps.len() == n);
            assert(forall|k: int| 0 <= k < n ==> precaps[k] == caps@[k]@);
        }
        while j < n
            invariant
                n == caps@.len(),
                j <= n,
                o < pre_objs.len(),
                self.objects@ == pre_objs.remove(o as int),
                precaps.len() == n,
                forall|k: int| 0 <= k < n ==> precaps[k] == caps@[k]@,
                forall|k: int| 0 <= k < j ==> precaps[k].kind != kind,
            decreases n - j,
        {
            if caps[j].kind == kind {
                let ghost oldcaps = caps@;
                caps.set(j, Capability { kind, payload });
                proof {
                    assert(precaps[j as int].kind == kind);
                    assert(has_cap(precaps, kind));
                    assert(caps_unique(precaps));
                    let w = cap_index(precaps, kind);
                    assert(0 <= w < n && precaps[w].kind == kind);
                    assert(w == j as int);
                    assert(Seq::new(caps@.len(), |k: int| caps@[k]@) =~= caps_insert(
                        precaps,
                        kind,
                        payload@,
                    ));
                }
                self.objects.insert(o, caps);
                proof {
                    assert(self@ =~~= world_insert(pre, o as int, kind, payload@));
                    assert(caps_unique(self@[o as int]));
                    assert(self.wf());
                }
                return ;
            }
            j = j + 1;
        }
        proof {
            assert(!has_cap(precaps, kind));
        }
        caps.push(Capability { kind, payload });
        proof {
            assert(Seq::new(caps@.len(), |k: int| caps@[k]@) =~= caps_insert(
                precaps,
                kind,
                payload@,
            ));
        }
        self.objects.insert(o, caps);
        proof {
            assert(self@ =~~= world_insert(pre, o as int, kind, payload@));
            assert(caps_unique(self@[o as int]));
            assert(self.wf());
        }
    }

    /// Remove the capability of type `kind` from object `o`; a no-op when
    /// the object does not hold one.
    #[verifier::loop_isolation(false)]
    pub fn remove_capability(&mut self, o: usize, kind: u64)
        requires
            o < old(self)@.len(),
            old(self).wf(),
        ensures
            final(self)@ == world_remove(old(self)@, o as int, kind),
            final(self)@.len() == old(self)@.len(),
            final(self).wf(),
    {
        let ghost pre = self@;
        let ghost pre_objs = self.objects@;
        let ghost precaps = self@[o as int];
        let mut caps = self.objects.remove(o);
        let n = caps.len();
        let mut j: usize = 0;
        proof {
            assert(precaps.len() == n);
            assert(forall|k: int| 0 <= k < n ==> precaps[k] == caps@[k]@);
        }
        while j < n
            invariant
                n == caps@.len(),
                j <= n,
                o < pre_objs.len(),
                self.objects@ == pre_objs.remove(o as int),
                precaps.len() == n,
                forall|k: int| 0 <= k < n ==> precaps[k] == caps@[k]@,
                forall|k: int| 0 <= k < j ==> precaps[k].kind != kind,
            decreases n - j,
        {
            if caps[j].kind == kind {
                caps.remove(j);
                proof {
                    assert(precaps[j as int].kind == kind);
                    assert(has_cap(precaps, kind));
                    assert(caps_unique(precaps));
                    let w = cap_index(precaps, kind);
                    assert(0 <= w < n && precaps[w].kind == kind);
                    assert(w == j as int);
                    assert(Seq::new(caps@.len(), |k: int| caps@[k]@) =~= caps_remove(
                        precaps,
                        kind,
                    ));
                }
                self.objects.insert(o, caps);
                proof {
                    assert(self@ =~~= world_remove(pre, o as int, kind));
                    assert(caps_unique(self@[o as int]));
                    assert(self.wf());
                }
                return ;
            }
            j = j + 1;
        }
        proof {
            assert(!has_cap(precaps, kind));
        }
        self.objects.insert(o, caps);
        proof {
            assert(self@ =~~= world_remove(pre, o as int, kind));
            assert(self.wf());
        }
    }
}

} // verus!

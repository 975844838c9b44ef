//! Per-request dependency trees: resolution and cycle handling.
//!
//! Applying a template means first resolving it into a tree of steps: one
//! step per schematic, carrying the schematic's payload and, when the
//! schematic names a nested template, the resolved subtree for that
//! template. Resolution walks depth first with a stack of the identifiers
//! on the active path; meeting an identifier already on the stack is a
//! cycle, answered according to the configured [`CycleResponse`]; a
//! dependency absent from the store aborts the whole build, so a partial
//! tree is never handed on.

use vstd::prelude::*;
use vstd::seq_lib::group_seq_properties;
use vstd::set_lib::lemma_len_subset;

use crate::config::CycleResponse;
use crate::error::{ProtoError, ProtoErrorView};
use crate::store::{contains_id, ids_unique, TemplateStore};
use crate::template::{SchematicView, TemplateView};

verus! {

broadcast use group_seq_properties;

/// The mathematical content of a [`TreeStep`].
pub ghost struct TreeStepView {
    /// Type identifier of the schematic this step came from.
    pub kind: u64,
    /// The schematic's payload, copied into the plan.
    pub payload: Seq<u8>,
    /// Whether a resolved child is applied to a freshly created object.
    pub spawn_child: bool,
    /// The resolved subtree of a nested template; nothing when the
    /// schematic names no template or the edge was pruned as cyclic.
    pub child: Option<TreeNodeView>,
}

/// The mathematical content of a [`TreeNode`].
pub ghost struct TreeNodeView {
    /// Identifier of the resolved template.
    pub id: Seq<char>,
    /// One step per schematic, in declaration order.
    pub steps: Seq<TreeStepView>,
}

/// One application step of a resolved tree, copied from one schematic.
pub struct TreeStep {
    /// Type identifier of the schematic this step came from.
    pub kind: u64,
    /// The schematic's payload, copied into the plan.
    pub payload: Vec<u8>,
    /// Whether a resolved child is applied to a freshly created object.
    pub spawn_child: bool,
    /// The resolved subtree of a nested template; nothing when the
    /// schematic names no template or the edge was pruned as cyclic.
    pub child: Option<Box<TreeNode>>,
}

/// One node of a resolved tree: a template and its steps in declaration
/// order. Built fresh per request and never persisted.
pub struct TreeNode {
    /// Identifier of the resolved template.
    pub id: String,
    /// One step per schematic, in declaration order.
    pub steps: Vec<TreeStep>,
}

/// The mathematical content of one step.
pub open spec fn step_view(s: TreeStep) -> TreeStepView
    decreases s,
{
    TreeStepView {
        kind: s.kind,
        payload: s.payload@,
        spawn_child: s.spawn_child,
        child: match s.child {
            Option::Some(b) => Option::Some(node_view(*b)),
            Option::None => Option::None,
        },
    }
}

/// The views of a step sequence, in order.
pub open spec fn steps_view(s: Seq<TreeStep>) -> Seq<TreeStepView>
    decreases s,
{
    if s.len() == 0 {
        Seq::empty()
    } else {
        steps_view(s.drop_last()).push(step_view(s.last()))
    }
}

/// The mathematical content of one node.
pub open spec fn node_view(n: TreeNode) -> TreeNodeView
    decreases n,
{
    TreeNodeView { id: n.id@, steps: steps_view(n.steps@) }
}

/// A step sequence and its views have the same length.
pub proof fn lemma_steps_view_len(s: Seq<TreeStep>)
    ensures
        steps_view(s).len() == s.len(),
    decreases s,
{
    if s.len() > 0 {
        lemma_steps_view_len(s.drop_last());
    }
}

/// The views of a step sequence are the views of its steps, pointwise.
pub proof fn lemma_steps_view_index(s: Seq<TreeStep>, i: int)
    requires
        0 <= i < s.len(),
    ensures
        steps_view(s)[i] == step_view(s[i]),
    decreases s,
{
    lemma_steps_view_len(s);
    lemma_steps_view_len(s.drop_last());
    if i < s.len() - 1 {
        lemma_steps_view_index(s.drop_last(), i);
    }
}

/// The identifiers of a path stack, in order.
pub open spec fn path_view(p: Seq<String>) -> Seq<Seq<char>> {
    Seq::new(p.len(), |i: int| p[i]@)
}

/// The active path is duplicate free and every identifier on it is loaded.
pub open spec fn path_ok(store: Seq<TemplateView>, path: Seq<Seq<char>>) -> bool {
    path.no_duplicates() && forall|k: int| 0 <= k < path.len() ==> contains_id(
        store,
        #[trigger] path[k],
    )
}

/// The position of the entry named `id`; meaningful when the store holds
/// one and identifiers are unique.
pub open spec fn id_index(store: Seq<TemplateView>, id: Seq<char>) -> int {
    choose|i: int| 0 <= i < store.len() && store[i].id == id
}

/// The position of `d` on the active path; meaningful when present and the
/// path is duplicate free.
pub open spec fn path_index_of(path: Seq<Seq<char>>, d: Seq<char>) -> int {
    choose|k: int| 0 <= k < path.len() && path[k] == d
}

/// The cycle record for meeting `d` again: the active path from `d` back
/// to `d` itself.
pub open spec fn cycle_of(path: Seq<Seq<char>>, d: Seq<char>) -> Seq<Seq<char>> {
    path.skip(path_index_of(path, d)).push(d)
}

/// A duplicate-free path of loaded identifiers is no longer than the store.
pub proof fn lemma_path_len(store: Seq<TemplateView>, path: Seq<Seq<char>>)
    requires
        path.no_duplicates(),
        forall|k: int| 0 <= k < path.len() ==> contains_id(store, #[trigger] path[k]),
    ensures
        path.len() <= store.len(),
{
    let ids = Seq::new(store.len(), |i: int| store[i].id);
    path.unique_seq_to_set();
    ids.lemma_cardinality_of_set();
    assert forall|x: Seq<char>| path.to_set().contains(x) implies ids.to_set().contains(x) by {
        assert(path.contains(x));
        let k = choose|k: int| 0 <= k < path.len() && path[k] == x;
        assert(contains_id(store, path[k]));
        let i = choose|i: int| 0 <= i < store.len() && store[i].id == x;
        assert(ids[i] == x);
        assert(ids.contains(x));
    }
    assert(path.to_set().subset_of(ids.to_set()));
    lemma_len_subset(path.to_set(), ids.to_set());
}

/// Extending the active path with a fresh loaded identifier keeps it well
/// formed and within the store's size.
pub proof fn lemma_path_push(store: Seq<TemplateView>, path: Seq<Seq<char>>, id: Seq<char>)
    requires
        path_ok(store, path),
        contains_id(store, id),
        !path.contains(id),
    ensures
        path_ok(store, path.push(id)),
        path.push(id).len() <= store.len(),
{
    let p = path.push(id);
    assert forall|i: int, j: int| 0 <= i < j < p.len() implies p[i] != p[j] by {
        if j == path.len() {
            assert(p[i] == path[i]);
            if path[i] == id {
                assert(path.contains(id));
            }
        }
    }
    assert(p.no_duplicates());
    assert forall|k: int| 0 <= k < p.len() implies contains_id(store, #[trigger] p[k]) by {
        if k < path.len() {
            assert(contains_id(store, path[k]));
        }
    }
    lemma_path_len(store, p);
}

/// What resolving a sequence of schematics produced.
pub ghost enum StepsOutcome {
    /// Every schematic resolved; the steps, in declaration order.
    Done { steps: Seq<TreeStepView> },
    /// Resolution aborted.
    Failed { error: ProtoErrorView },
}

/// What resolving one template produced.
pub ghost enum ResolveOutcome {
    /// The resolved node.
    Done { node: TreeNodeView },
    /// Resolution aborted.
    Failed { error: ProtoErrorView },
}

/// Prepend a resolved step to the outcome of the remaining schematics.
pub open spec fn cons_step(step: TreeStepView, rest: StepsOutcome) -> StepsOutcome {
    match rest {
        StepsOutcome::Done { steps } => StepsOutcome::Done { steps: seq![step] + steps },
        StepsOutcome::Failed { error } => StepsOutcome::Failed { error },
    }
}

/// Resolution of the template named `id` against `store`, with `path` the
/// identifiers currently being resolved above it.
pub open spec fn resolve_node(
    store: Seq<TemplateView>,
    id: Seq<char>,
    path: Seq<Seq<char>>,
    response: CycleResponse,
) -> ResolveOutcome
    decreases store.len() - path.len(), 0int,
        when ids_unique(store) && path_ok(store, path) && contains_id(store, id) && !path.contains(
            id,
        )
        via resolve_node_decreases
{
    let t = store[id_index(store, id)];
    match resolve_steps(store, t.schematics, path.push(id), response) {
        StepsOutcome::Done { steps } => ResolveOutcome::Done {
            node: TreeNodeView { id, steps },
        },
        StepsOutcome::Failed { error } => ResolveOutcome::Failed { error },
    }
}

/// Resolution of the remaining schematics of a template whose active path
/// is `path` (the template itself included).
pub open spec fn resolve_steps(
    store: Seq<TemplateView>,
    schematics: Seq<SchematicView>,
    path: Seq<Seq<char>>,
    response: CycleResponse,
) -> StepsOutcome
    decreases store.len() - path.len(), schematics.len() + 1,
        when ids_unique(store) && path_ok(store, path)
        via resolve_steps_decreases
{
    if schematics.len() == 0 {
        StepsOutcome::Done { steps: Seq::empty() }
    } else {
        let s = schematics[0];
        let rest = schematics.drop_first();
        match s.dependency {
            Option::None => cons_step(
                TreeStepView {
                    kind: s.kind,
                    payload: s.payload,
                    spawn_child: s.spawn_child,
                    child: Option::None,
                },
                resolve_steps(store, rest, path, response),
            ),
            Option::Some(d) => {
                if path.contains(d) {
                    if response == CycleResponse::Panic {
                        StepsOutcome::Failed {
                            error: ProtoErrorView::CycleDetected { path: cycle_of(path, d) },
                        }
                    } else {
                        cons_step(
                            TreeStepView {
                                kind: s.kind,
                                payload: s.payload,
                                spawn_child: s.spawn_child,
                                child: Option::None,
                            },
                            resolve_steps(store, rest, path, response),
                        )
                    }
                } else if !contains_id(store, d) {
                    StepsOutcome::Failed { error: ProtoErrorView::MissingDependency { id: d } }
                } else {
                    match resolve_node(store, d, path, response) {
                        ResolveOutcome::Done { node } => cons_step(
                            TreeStepView {
                                kind: s.kind,
                                payload: s.payload,
                                spawn_child: s.spawn_child,
                                child: Option::Some(node),
                            },
                            resolve_steps(store, rest, path, response),
                        ),
                        ResolveOutcome::Failed { error } => StepsOutcome::Failed { error },
                    }
                }
            },
        }
    }
}

#[via_fn]
proof fn resolve_node_decreases(
    store: Seq<TemplateView>,
    id: Seq<char>,
    path: Seq<Seq<char>>,
    response: CycleResponse,
) {
    lemma_path_push(store, path, id);
}

#[via_fn]
proof fn resolve_steps_decreases(
    store: Seq<TemplateView>,
    schematics: Seq<SchematicView>,
    path: Seq<Seq<char>>,
    response: CycleResponse,
) {
    lemma_path_len(store, path);
}

/// Whether `d` is on the active path.
fn path_contains(path: &Vec<String>, d: &String) -> (r: bool)
    ensures
        r == path_view(path@).contains(d@),
{
    let n = path.len();
    let mut i: usize = 0;
    while i < n
        invariant
            n == path@.len(),
            i <= n,
            forall|k: int| 0 <= k < i ==> path_view(path@)[k] != d@,
        decreases n - i,
    {
        if path[i] == *d {
            proof {
                assert(path_view(path@)[i as int] == d@);
            }
            return true;
        }
        i = i + 1;
    }
    proof {
        if path_view(path@).contains(d@) {
            let k = choose|k: int| 0 <= k < path_view(path@).len() && path_view(path@)[k] == d@;
            assert(path_view(path@)[k] != d@);
        }
    }
    false
}

/// The cycle record for meeting `d` while `path` is active: the suffix of
/// the path from `d` on, with `d` repeated at the end.
#[verifier::loop_isolation(false)]
fn cycle_record(path: &Vec<String>, d: &String) -> (r: Vec<String>)
    requires
        path_view(path@).contains(d@),
        path_view(path@).no_duplicates(),
    ensures
        path_view(r@) == cycle_of(path_view(path@), d@),
{
    let n = path.len();
    let mut k: usize = 0;
    while k < n && !(path[k] == *d)
        invariant
            k <= n,
            forall|m: int| 0 <= m < k ==> path_view(path@)[m] != d@,
        decreases n - k,
    {
        k = k + 1;
    }
    proof {
        let w = choose|w: int|
            0 <= w < path_view(path@).len() && path_view(path@)[w] == d@;
        assert(k < n);
        assert(path_view(path@)[k as int] == d@);
        let c = path_index_of(path_view(path@), d@);
        assert(0 <= c < n && path_view(path@)[c] == d@);
        assert(c == k as int);
    }
    let mut r: Vec<String> = Vec::new();
    let mut m: usize = k;
    while m < n
        invariant
            k <= m <= n,
            path_view(r@) =~= path_view(path@).subrange(k as int, m as int),
        decreases n - m,
    {
        r.push(path[m].clone());
        proof {
            assert(path_view(r@) =~= path_view(path@).subrange(k as int, m + 1 as int));
        }
        m = m + 1;
    }
    r.push(d.clone());
    proof {
        assert(path_view(r@) =~= cycle_of(path_view(path@), d@));
    }
    r
}

/// Resolve the template named `id` into a tree of application steps.
///
/// Fails with [`ProtoError::UnknownTemplate`] when `id` itself is not
/// loaded; otherwise the result is exactly what [`resolve_node`] gives:
/// [`ProtoError::MissingDependency`] aborts the build when a schematic
/// names an unloaded template, and a dependency cycle is pruned or aborts
/// the build with [`ProtoError::CycleDetected`] according to `response`.
pub fn build_tree(store: &TemplateStore, id: &String, response: CycleResponse) -> (r: Result<
    TreeNode,
    ProtoError,
>)
    requires
        store.wf(),
    ensures
        contains_id(store@, id@) ==> match r {
            Result::Ok(node) => resolve_node(store@, id@, Seq::empty(), response)
                == (ResolveOutcome::Done { node: node_view(node) }),
            Result::Err(e) => resolve_node(store@, id@, Seq::empty(), response)
                == (ResolveOutcome::Failed { error: e@ }),
        },
        !contains_id(store@, id@) ==> match r {
            Result::Ok(node) => false,
            Result::Err(e) => e@ == (ProtoErrorView::UnknownTemplate { id: id@ }),
        },
{
    if !store.contains(id) {
        return Result::Err(ProtoError::UnknownTemplate { id: id.clone() });
    }
    let mut path: Vec<String> = Vec::new();
    proof {
        assert(path_view(path@) =~= Seq::<Seq<char>>::empty());
    }
    build_node(store, id, &mut path, response)
}

/// Resolve one template whose ancestors are on `path`; the path is
/// restored before returning.
#[verifier::loop_isolation(false)]
fn build_node(
    store: &TemplateStore,
    id: &String,
    path: &mut Vec<String>,
    response: CycleResponse,
) -> (r: Result<TreeNode, ProtoError>)
    requires
        store.wf(),
        path_ok(store@, path_view(old(path)@)),
        contains_id(store@, id@),
        !path_view(old(path)@).contains(id@),
    ensures
        final(path)@ == old(path)@,
        match r {
            Result::Ok(node) => resolve_node(store@, id@, path_view(old(path)@), response)
                == (ResolveOutcome::Done { node: node_view(node) }),
            Result::Err(e) => resolve_node(store@, id@, path_view(old(path)@), response)
                == (ResolveOutcome::Failed { error: e@ }),
        },
    decreases store@.len() - old(path)@.len(),
{
    let ghost path0 = path_view(path@);
    proof {
        lemma_path_push(store@, path0, id@);
    }
    let template = match store.lookup(id) {
        Option::Some(t) => t,
        Option::None => {
            proof {
                assert(false);
            }
            return Result::Err(ProtoError::UnknownTemplate { id: id.clone() });
        },
    };
    proof {
        let w = id_index(store@, id@);
        let e = choose|i: int| 0 <= i < store@.len() && store@[i] == template@;
        assert(store@[e].id == id@);
        assert(0 <= w < store@.len() && store@[w].id == id@);
        assert(w == e);
        assert(store@[id_index(store@, id@)] == template@);
    }
    path.push(id.clone());
    let ghost pushed = path@;
    let ghost cur = path_view(path@);
    proof {
        assert(cur =~= path0.push(id@));
    }
    let ghost svs = template@.schematics;
    let n = template.schematics.len();
    let mut steps: Vec<TreeStep> = Vec::new();
    let mut j: usize = 0;
    while j < n
        invariant
            n == svs.len(),
            n == template.schematics@.len(),
            j <= n,
            path@ == pushed,
            path_view(path@) == cur,
            steps_view(steps@).len() == j,
            forall|i: int|
                0 <= i < n ==> svs[i] == #[trigger] template.schematics@[i]@,
            match resolve_steps(store@, svs.skip(j as int), cur, response) {
                StepsOutcome::Done { steps: rest } => resolve_steps(store@, svs, cur, response)
                    == (StepsOutcome::Done { steps: steps_view(steps@) + rest }),
                StepsOutcome::Failed { error } => resolve_steps(store@, svs, cur, response)
                    == (StepsOutcome::Failed { error }),
            },
        decreases n - j,
    {
        proof {
            assert(svs.skip(j as int).len() > 0);
            assert(svs.skip(j as int)[0] == svs[j as int]);
            assert(svs.skip(j as int).drop_first() =~= svs.skip(j + 1 as int));
        }
        let s = &template.schematics[j];
        let ghost sv = svs[j as int];
        let step: TreeStep = match &s.dependency {
            Option::None => TreeStep {
                kind: s.kind,
                payload: crate::template::clone_payload(&s.payload),
                spawn_child: s.spawn_child,
                child: Option::None,
            },
            Option::Some(d) => {
                if path_contains(path, d) {
                    match response {
                        CycleResponse::Panic => {
                            let record = cycle_record(path, d);
                            let ghost err = ProtoErrorView::CycleDetected {
                                path: cycle_of(cur, d@),
                            };
                            proof {
                                assert(resolve_steps(store@, svs.skip(j as int), cur, response)
                                    == (StepsOutcome::Failed { error: err }));
                            }
                            path.pop();
                            proof {
                                assert(path@ =~= old(path)@);
                            }
                            return Result::Err(ProtoError::CycleDetected { path: record });
                        },
                        CycleResponse::Cancel => TreeStep {
                            kind: s.kind,
                            payload: crate::template::clone_payload(&s.payload),
                            spawn_child: s.spawn_child,
                            child: Option::None,
                        },
                    }
                } else if !store.contains(d) {
                    proof {
                        assert(resolve_steps(store@, svs.skip(j as int), cur, response)
                            == (StepsOutcome::Failed {
                            error: ProtoErrorView::MissingDependency { id: d@ },
                        }));
                    }
                    path.pop();
                    proof {
                        assert(path@ =~= old(path)@);
                    }
                    return Result::Err(ProtoError::MissingDependency { id: d.clone() });
                } else {
                    proof {
                        lemma_path_push(store@, path0, id@);
                    }
                    match build_node(store, d, path, response) {
                        Result::Ok(child) => TreeStep {
                            kind: s.kind,
                            payload: crate::template::clone_payload(&s.payload),
                            spawn_child: s.spawn_child,
                            child: Option::Some(Box::new(child)),
                        },
                        Result::Err(e) => {
                            proof {
                                assert(resolve_steps(store@, svs.skip(j as int), cur, response)
                                    == (StepsOutcome::Failed { error: e@ }));
                            }
                            path.pop();
                            proof {
                                assert(path@ =~= old(path)@);
                            }
                            return Result::Err(e);
                        },
                    }
                }
            },
        };
        let ghost prev_steps = steps@;
        proof {
            assert(step_view(step) == (TreeStepView {
                kind: sv.kind,
                payload: sv.payload,
                spawn_child: sv.spawn_child,
                child: step_view(step).child,
            }));
        }
        steps.push(step);
        proof {
            assert(steps@.drop_last() =~= prev_steps);
            assert(steps@.last() == step);
            assert(steps_view(steps@) == steps_view(prev_steps).push(step_view(step)));
            assert(steps_view(prev_steps).push(step_view(step)) + resolve_rest_of(
                store@,
                svs,
                j + 1,
                cur,
                response,
            ) =~= steps_view(prev_steps) + (seq![step_view(step)] + resolve_rest_of(
                store@,
                svs,
                j + 1,
                cur,
                response,
            )));
        }
        j = j + 1;
    }
    proof {
        assert(svs.skip(n as int) =~= Seq::<SchematicView>::empty());
        assert(resolve_steps(store@, svs.skip(n as int), cur, response) == (StepsOutcome::Done {
            steps: Seq::<TreeStepView>::empty(),
        }));
        assert(steps_view(steps@) + Seq::<TreeStepView>::empty() =~= steps_view(steps@));
    }
    path.pop();
    proof {
        assert(path@ =~= old(path)@);
    }
    let node = TreeNode { id: id.clone(), steps };
    Result::Ok(node)
}

/// The steps the remaining schematics from position `j` on resolve to,
/// when they all resolve.
pub open spec fn resolve_rest_of(
    store: Seq<TemplateView>,
    schematics: Seq<SchematicView>,
    j: int,
    path: Seq<Seq<char>>,
    response: CycleResponse,
) -> Seq<TreeStepView> {
    match resolve_steps(store, schematics.skip(j), path, response) {
        StepsOutcome::Done { steps } => steps,
        StepsOutcome::Failed { .. } => Seq::empty(),
    }
}

} // verus!

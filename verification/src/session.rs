//! The render session as a state machine.
//!
//! One session drives one request: it emits the initial frame — page head,
//! streamed body with placeholders, post-main hydration script — as the
//! first chunk, then answers each completed unit of asynchronous work. When
//! a completion fully resolves a registered suspense boundary, the session
//! removes its registry entry, freezes the scope against any further
//! re-render, extracts and serializes its hydration state, re-renders just
//! that subtree, and appends one replacement chunk for its mount. The
//! machine is the session's specification; the executable orchestrator is
//! proved to follow it step by step, and the streaming laws are proved of
//! the machine itself.

use vstd::prelude::*;

use crate::graph::{
    wf_node, NodeV, ScopeV,
    apply_event, apply_events, freeze_scope, lemma_wf_apply_event, lemma_wf_freeze, wf_graph,
    GraphV,
};
use crate::hydration::{
    spec_extract, spec_serialized_data, spec_serialized_locations, spec_serialized_types,
};
use crate::registry::BoundaryV;
use crate::render::{
    charged_set, children_ok, covers, lemma_srender_scope, mounts_inv, spec_srender_scope, RState,
};
use crate::shell::{spec_render_after_main, spec_render_head, DocV, IndexV};
use crate::streaming::{spec_render_chunks, spec_replace_chunk};

verus! {

/// The whole state of one render session.
#[verifier::ext_equal]
pub ghost struct SessionV {
    /// The component graph as it stands.
    pub graph: GraphV,
    /// The chunks emitted so far, in order.
    pub chunks: Seq<Seq<char>>,
    /// The next fresh mount identifier.
    pub next_mount: nat,
    /// The scope→mount registry: scopes whose placeholder awaits replacement.
    pub reg: Map<int, BoundaryV>,
    /// The scopes capturing errors.
    pub capturing: Set<int>,
    /// The mounts whose placeholder has been replaced, in emission order.
    pub replaced: Seq<int>,
    /// The scopes whose boundary was resolved into a chunk, in order.
    pub resolved: Seq<int>,
}

/// The session state seen as a streaming-walk state.
pub open spec fn session_rstate(st: SessionV) -> RState {
    RState {
        out: Seq::empty(),
        next_mount: st.next_mount,
        reg: st.reg,
        stack: Seq::empty(),
        capturing: st.capturing,
    }
}

/// The initial session state: the first chunk holds the page head, the
/// streamed initial frame with placeholders, and the post-main hydration
/// script.
pub open spec fn spec_start(cfg: IndexV, doc: DocV, g: GraphV) -> SessionV {
    let rst0 = RState {
        out: Seq::empty(),
        next_mount: 0,
        reg: Map::empty(),
        stack: Seq::empty(),
        capturing: Set::empty(),
    };
    let rst = spec_srender_scope(g, 0, rst0);
    let body = rst.out + spec_render_after_main(cfg, g);
    SessionV {
        graph: g,
        chunks: spec_render_chunks(spec_render_head(cfg, doc), Seq::empty(), body),
        next_mount: rst.next_mount,
        reg: rst.reg,
        capturing: rst.capturing,
        replaced: Seq::empty(),
        resolved: Seq::empty(),
    }
}

/// One completed unit of asynchronous work. If it fully resolves a
/// registered boundary, that boundary's entry is removed, the scope is
/// frozen, its hydration state is extracted and serialized, its subtree is
/// re-rendered through the streaming callback, one replacement chunk is
/// appended for its mount, and each child boundary recorded under it begins
/// capturing errors. Any other completion only lowers a pending count.
pub open spec fn spec_step(st: SessionV, e: int) -> SessionV {
    let g1 = apply_event(st.graph, e);
    if 0 <= e < st.graph.n() && st.graph.scopes[e].pending == 1 && st.reg.contains_key(e) {
        let b = st.reg[e];
        let g2 = freeze_scope(g1, e);
        let data = spec_extract(g2, e);
        let rst0 = RState {
            out: Seq::empty(),
            next_mount: st.next_mount,
            reg: st.reg.remove(e),
            stack: Seq::empty(),
            capturing: st.capturing,
        };
        let rst = spec_srender_scope(g2, e, rst0);
        let chunk = spec_replace_chunk(
            b.mount,
            rst.out,
            spec_serialized_data(data),
            spec_serialized_types(data),
            spec_serialized_locations(data),
        );
        SessionV {
            graph: g2,
            chunks: st.chunks.push(chunk),
            next_mount: rst.next_mount,
            reg: rst.reg,
            capturing: rst.capturing.union(b.children.to_set()),
            replaced: st.replaced.push(b.mount as int),
            resolved: st.resolved.push(e),
        }
    } else {
        SessionV { graph: g1, ..st }
    }
}

/// The session after a sequence of completion events.
pub open spec fn spec_run(st: SessionV, evs: Seq<int>) -> SessionV
    decreases evs.len(),
{
    if evs.len() == 0 {
        st
    } else {
        spec_step(spec_run(st, evs.drop_last()), evs.last())
    }
}

/// Some registry entry carries mount `m`.
pub open spec fn reg_has_mount(reg: Map<int, BoundaryV>, m: int) -> bool {
    exists|k: int| #[trigger] reg.contains_key(k) && (reg[k].mount as int) == m
}

/// The session invariant: the walk's mount accounting, and on top of it the
/// replacement ledger — every mount ever allocated is either still live in
/// the registry or was replaced exactly once, replaced mounts and live
/// mounts never overlap, and each scope resolved into a chunk is frozen.
pub open spec fn session_inv(st: SessionV) -> bool {
    &&& wf_graph(st.graph)
    &&& mounts_inv(st.graph, session_rstate(st))
    &&& st.replaced.no_duplicates()
    &&& forall|i: int| 0 <= i < st.replaced.len() ==> 0 <= #[trigger] st.replaced[i]
        < st.next_mount
    &&& forall|i: int, k: int|
        0 <= i < st.replaced.len() && #[trigger] st.reg.contains_key(k) ==> (st.reg[
            k
        ].mount as int) != #[trigger] st.replaced[i]
    &&& forall|m: int|
        0 <= m < st.next_mount ==> st.replaced.contains(m) || reg_has_mount(st.reg, m)
    &&& st.resolved.len() == st.replaced.len()
    &&& forall|i: int|
        0 <= i < st.resolved.len() ==> 0 <= #[trigger] st.resolved[i] < st.graph.n()
            && st.graph.scopes[st.resolved[i]].frozen
    &&& st.resolved.no_duplicates()
}

/// The initial state satisfies the invariant.
pub proof fn lemma_start_inv(cfg: IndexV, doc: DocV, g: GraphV)
    requires
        wf_graph(g),
    ensures
        session_inv(spec_start(cfg, doc, g)),
{
    let rst0 = RState {
        out: Seq::empty(),
        next_mount: 0,
        reg: Map::empty(),
        stack: Seq::empty(),
        capturing: Set::empty(),
    };
    assert(mounts_inv(g, rst0)) by {
        let all = vstd::set_lib::set_int_range(0, g.n());
        vstd::set_lib::lemma_int_range(0, g.n());
        assert(charged_set(g, rst0).subset_of(all));
        vstd::set_lib::lemma_len_subset(charged_set(g, rst0), all);
    }
    lemma_srender_scope(g, 0, rst0);
    let rst = spec_srender_scope(g, 0, rst0);
    let st = spec_start(cfg, doc, g);
    assert(session_rstate(st) =~= RState { out: Seq::empty(), stack: Seq::empty(), ..rst });
    assert(charged_set(g, session_rstate(st)) =~= charged_set(g, rst));
    assert(mounts_inv(g, session_rstate(st)));
    assert forall|m: int| 0 <= m < st.next_mount implies st.replaced.contains(m)
        || reg_has_mount(st.reg, m) by {
        assert(covers(rst.reg, rst0.reg, m));
        let k = choose|k: int|
            #[trigger] rst.reg.contains_key(k) && !rst0.reg.contains_key(k) && (rst.reg[
                k
            ].mount as int) == m;
        assert(reg_has_mount(st.reg, m));
    }
}

/// One step preserves the invariant; chunks, the replacement ledger and the
/// resolution ledger only grow; frozen scopes stay frozen.
pub proof fn lemma_step_inv(st: SessionV, e: int)
    requires
        session_inv(st),
    ensures
        session_inv(spec_step(st, e)),
        spec_step(st, e).chunks.len() >= st.chunks.len(),
        forall|i: int|
            0 <= i < st.chunks.len() ==> #[trigger] spec_step(st, e).chunks[i] == st.chunks[i],
        spec_step(st, e).resolved.len() >= st.resolved.len(),
        forall|i: int|
            0 <= i < st.resolved.len() ==> #[trigger] spec_step(st, e).resolved[i]
                == st.resolved[i],
        spec_step(st, e).graph.n() == st.graph.n(),
        forall|s: int|
            0 <= s < st.graph.n() && st.graph.scopes[s].frozen ==> spec_step(
                st,
                e,
            ).graph.scopes[s].frozen,
{
    let g = st.graph;
    let g1 = apply_event(g, e);
    lemma_wf_apply_event(g, e);
    if 0 <= e < g.n() && g.scopes[e].pending == 1 && st.reg.contains_key(e) {
        let b = st.reg[e];
        let g2 = freeze_scope(g1, e);
        lemma_wf_freeze(g1, e);
        let rst0 = RState {
            out: Seq::empty(),
            next_mount: st.next_mount,
            reg: st.reg.remove(e),
            stack: Seq::empty(),
            capturing: st.capturing,
        };
        assert(mounts_inv(g2, rst0)) by {
            assert forall|k: int| #[trigger] rst0.reg.contains_key(k) implies 0 <= k < g2.n()
                && g2.scopes[k].pending > 0 && !g2.scopes[k].frozen && (rst0.reg[
                k
            ].mount as int) < rst0.next_mount by {
                assert(st.reg.contains_key(k) && k != e);
                assert(g2.scopes[k] == g.scopes[k]);
            }
            assert(children_ok(g2, rst0.reg)) by {
                assert forall|k: int| #[trigger] rst0.reg.contains_key(k) implies forall|j: int|
                    0 <= j < rst0.reg[k].children.len() ==> 0 <= #[trigger] rst0.reg[
                        k
                    ].children[j] < g2.n() by {
                    assert(st.reg.contains_key(k));
                }
            }
            assert(charged_set(g2, rst0) =~= charged_set(g, session_rstate(st)));
        }
        lemma_srender_scope(g2, e, rst0);
        let rst = spec_srender_scope(g2, e, rst0);
        let st1 = spec_step(st, e);
        assert(session_rstate(st1) =~= RState {
            out: Seq::empty(),
            stack: Seq::empty(),
            capturing: st1.capturing,
            ..rst
        });
        assert(charged_set(st1.graph, session_rstate(st1)) =~= charged_set(g2, rst));
        assert(mounts_inv(st1.graph, session_rstate(st1)));
        // the replacement ledger
        assert(!st.replaced.contains(b.mount as int)) by {
            if st.replaced.contains(b.mount as int) {
                let i = choose|i: int|
                    0 <= i < st.replaced.len() && st.replaced[i] == b.mount as int;
                assert(st.reg.contains_key(e));
                assert((st.reg[e].mount as int) != st.replaced[i]);
            }
        }
        assert(st1.replaced.no_duplicates()) by {
            assert(st1.replaced.drop_last() =~= st.replaced);
        }
        assert forall|i: int| 0 <= i < st1.replaced.len() implies 0 <= #[trigger] st1.replaced[i]
            < st1.next_mount by {
            if i < st.replaced.len() {
                assert(st1.replaced[i] == st.replaced[i]);
                assert(st.next_mount <= st1.next_mount);
            } else {
                assert(st1.replaced[i] == b.mount as int);
            }
        }
        assert forall|i: int, k: int|
            0 <= i < st1.replaced.len() && #[trigger] st1.reg.contains_key(k) implies (st1.reg[
            k
        ].mount as int) != #[trigger] st1.replaced[i] by {
            if rst0.reg.contains_key(k) {
                assert(st.reg.contains_key(k) && k != e);
                assert(st1.reg[k].mount == st.reg[k].mount);
                if i < st.replaced.len() {
                } else {
                    assert(st1.replaced[i] == b.mount as int);
                    assert((st.reg[k].mount as int) != (st.reg[e].mount as int));
                }
            } else {
                assert(st.next_mount <= (st1.reg[k].mount as int));
                if i < st.replaced.len() {
                    assert(st.replaced[i] < st.next_mount);
                } else {
                    assert(st1.replaced[i] == b.mount as int);
                    assert((b.mount as int) < st.next_mount);
                }
            }
        }
        assert forall|m: int| 0 <= m < st1.next_mount implies st1.replaced.contains(m)
            || reg_has_mount(st1.reg, m) by {
            if m < st.next_mount {
                if st.replaced.contains(m) {
                    let i = choose|i: int| 0 <= i < st.replaced.len() && st.replaced[i] == m;
                    assert(st1.replaced[i] == m);
                    assert(st1.replaced.contains(m));
                } else if m == b.mount as int {
                    assert(st1.replaced[st.replaced.len() as int] == m);
                    assert(st1.replaced.contains(m));
                } else {
                    assert(reg_has_mount(st.reg, m));
                    let k = choose|k: int|
                        #[trigger] st.reg.contains_key(k) && (st.reg[k].mount as int) == m;
                    assert(k != e);
                    assert(rst0.reg.contains_key(k) && rst0.reg[k].mount == st.reg[k].mount);
                    assert(st1.reg.contains_key(k) && st1.reg[k].mount == rst0.reg[k].mount);
                    assert(reg_has_mount(st1.reg, m));
                }
            } else {
                assert(covers(rst.reg, rst0.reg, m));
                let k = choose|k: int|
                    #[trigger] rst.reg.contains_key(k) && !rst0.reg.contains_key(k) && (rst.reg[
                        k
                    ].mount as int) == m;
                assert(reg_has_mount(st1.reg, m));
            }
        }
        // the resolution ledger
        assert(st1.resolved.drop_last() =~= st.resolved);
        assert forall|i: int| 0 <= i < st1.resolved.len() implies 0 <= #[trigger] st1.resolved[i]
            < st1.graph.n() && st1.graph.scopes[st1.resolved[i]].frozen by {
            if i < st.resolved.len() {
                assert(st1.resolved[i] == st.resolved[i]);
                assert(g.scopes[st.resolved[i]].frozen);
                assert(g1.scopes[st.resolved[i]].frozen);
            } else {
                assert(st1.resolved[i] == e);
            }
        }
        assert(st1.resolved.no_duplicates()) by {
            assert(!g.scopes[e].frozen);
            if st.resolved.contains(e) {
                let i = choose|i: int| 0 <= i < st.resolved.len() && st.resolved[i] == e;
                assert(g.scopes[e].frozen);
            }
        }
        assert(session_inv(st1));
    } else {
        let st1 = spec_step(st, e);
        assert(session_rstate(st1) =~= RState { reg: st.reg, ..session_rstate(st) });
        assert(mounts_inv(st1.graph, session_rstate(st1))) by {
            assert forall|k: int| #[trigger] st1.reg.contains_key(k) implies 0 <= k < st1.graph.n()
                && st1.graph.scopes[k].pending > 0 && !st1.graph.scopes[k].frozen && (st1.reg[
                k
            ].mount as int) < st1.next_mount by {
                assert(st.reg.contains_key(k));
                if k == e {
                    assert(g.scopes[e].pending > 1 || g.scopes[e].pending == 0 || !st.reg.contains_key(e));
                    assert(g1.scopes[e].pending > 0);
                }
            }
            assert(charged_set(st1.graph, session_rstate(st1)) =~= charged_set(
                g,
                session_rstate(st),
            ));
        }
        assert(session_inv(st1));
    }
}

/// The graph and walk state that a resolution step hands to the replacement
/// re-render are well-formed: needed by the executable orchestrator before
/// it walks the resolved subtree.
pub proof fn lemma_step_mid(st: SessionV, e: int)
    requires
        session_inv(st),
        0 <= e < st.graph.n(),
        st.graph.scopes[e].pending == 1,
        st.reg.contains_key(e),
    ensures
        wf_graph(freeze_scope(apply_event(st.graph, e), e)),
        mounts_inv(
            freeze_scope(apply_event(st.graph, e), e),
            RState {
                out: Seq::empty(),
                next_mount: st.next_mount,
                reg: st.reg.remove(e),
                stack: Seq::empty(),
                capturing: st.capturing,
            },
        ),
{
    let g = st.graph;
    let g1 = apply_event(g, e);
    lemma_wf_apply_event(g, e);
    let g2 = freeze_scope(g1, e);
    lemma_wf_freeze(g1, e);
    let rst0 = RState {
        out: Seq::empty(),
        next_mount: st.next_mount,
        reg: st.reg.remove(e),
        stack: Seq::empty(),
        capturing: st.capturing,
    };
    assert forall|k: int| #[trigger] rst0.reg.contains_key(k) implies 0 <= k < g2.n()
        && g2.scopes[k].pending > 0 && !g2.scopes[k].frozen && (rst0.reg[k].mount as int)
        < rst0.next_mount by {
        assert(st.reg.contains_key(k) && k != e);
        assert(g2.scopes[k] == g.scopes[k]);
    }
    assert(children_ok(g2, rst0.reg)) by {
        assert forall|k: int| #[trigger] rst0.reg.contains_key(k) implies forall|j: int|
            0 <= j < rst0.reg[k].children.len() ==> 0 <= #[trigger] rst0.reg[k].children[j]
                < g2.n() by {
            assert(st.reg.contains_key(k));
        }
    }
    assert(charged_set(g2, rst0) =~= charged_set(g, session_rstate(st)));
}

/// The invariant holds after any run from a well-formed start.
pub proof fn lemma_run_inv(st: SessionV, evs: Seq<int>)
    requires
        session_inv(st),
    ensures
        session_inv(spec_run(st, evs)),
        spec_run(st, evs).chunks.len() >= st.chunks.len(),
        forall|i: int|
            0 <= i < st.chunks.len() ==> #[trigger] spec_run(st, evs).chunks[i] == st.chunks[i],
        spec_run(st, evs).resolved.len() >= st.resolved.len(),
        forall|i: int|
            0 <= i < st.resolved.len() ==> #[trigger] spec_run(st, evs).resolved[i]
                == st.resolved[i],
        spec_run(st, evs).graph.n() == st.graph.n(),
        forall|s: int|
            0 <= s < st.graph.n() && st.graph.scopes[s].frozen ==> spec_run(
                st,
                evs,
            ).graph.scopes[s].frozen,
    decreases evs.len(),
{
    if evs.len() > 0 {
        lemma_run_inv(st, evs.drop_last());
        lemma_step_inv(spec_run(st, evs.drop_last()), evs.last());
    }
}

/// Splitting a run: running `a + b` is running `a`, then `b`.
pub proof fn lemma_run_split(st: SessionV, a: Seq<int>, b: Seq<int>)
    ensures
        spec_run(st, a + b) == spec_run(spec_run(st, a), b),
    decreases b.len(),
{
    if b.len() == 0 {
        assert(a + b =~= a);
    } else {
        lemma_run_split(st, a, b.drop_last());
        assert((a + b).drop_last() =~= a + b.drop_last());
        assert((a + b).last() == b.last());
    }
}

/// A run's graph differs from the event sequence applied to the starting
/// graph only in which scopes are frozen: in particular its pending counts
/// are exactly those of the applied events.
pub proof fn lemma_run_graph_pending(st: SessionV, evs: Seq<int>)
    ensures
        spec_run(st, evs).graph.n() == st.graph.n(),
        forall|s: int|
            0 <= s < st.graph.n() ==> #[trigger] spec_run(st, evs).graph.scopes[s] == (ScopeV {
                frozen: spec_run(st, evs).graph.scopes[s].frozen,
                ..apply_events(st.graph, evs).scopes[s]
            }),
    decreases evs.len(),
{
    if evs.len() > 0 {
        lemma_run_graph_pending(st, evs.drop_last());
        let stk = spec_run(st, evs.drop_last());
        let gk = apply_events(st.graph, evs.drop_last());
        crate::graph::lemma_apply_events_shape(st.graph, evs.drop_last());
        crate::graph::lemma_apply_events_shape(st.graph, evs);
        let e = evs.last();
        assert forall|s: int|
            0 <= s < st.graph.n() implies #[trigger] spec_run(st, evs).graph.scopes[s]
            == (ScopeV {
            frozen: spec_run(st, evs).graph.scopes[s].frozen,
            ..apply_events(st.graph, evs).scopes[s]
        }) by {
            if 0 <= e < stk.graph.n() {
                assert(stk.graph.scopes[e] == (ScopeV {
                    frozen: stk.graph.scopes[e].frozen,
                    ..gk.scopes[e]
                }));
            }
        }
    }
}

/// Two graphs that agree on everything but which scopes are frozen.
pub open spec fn same_but_frozen(g1: GraphV, g2: GraphV) -> bool {
    &&& g1.n() == g2.n()
    &&& forall|s: int|
        0 <= s < g1.n() ==> #[trigger] g2.scopes[s] == (ScopeV {
            frozen: g2.scopes[s].frozen,
            ..g1.scopes[s]
        })
}

/// The plain renderer never reads the frozen flags.
pub proof fn lemma_prender_frozen_scope(g1: GraphV, g2: GraphV, s: int)
    requires
        wf_graph(g1),
        wf_graph(g2),
        same_but_frozen(g1, g2),
        0 <= s < g1.n(),
    ensures
        crate::render::spec_prender_scope(g1, s) == crate::render::spec_prender_scope(g2, s),
    decreases g1.n() - s, 1int, g1.scopes[s].content,
{
    assert(crate::graph::wf_scope(g1, s));
    assert(g2.scopes[s] == ScopeV { frozen: g2.scopes[s].frozen, ..g1.scopes[s] });
    lemma_prender_frozen_node(g1, g2, s, g1.current_root(s));
    assert(g2.current_root(s) == g1.current_root(s));
}

pub proof fn lemma_prender_frozen_node(g1: GraphV, g2: GraphV, owner: int, node: NodeV)
    requires
        wf_graph(g1),
        wf_graph(g2),
        same_but_frozen(g1, g2),
        0 <= owner < g1.n(),
        wf_node(g1.n(), owner, node),
    ensures
        crate::render::spec_prender_node(g1, owner, node) == crate::render::spec_prender_node(
            g2,
            owner,
            node,
        ),
    decreases g1.n() - owner, 0int, node,
{
    match node {
        NodeV::Text(_) => {},
        NodeV::Element { tag: _, children } => {
            lemma_prender_frozen_nodes(g1, g2, owner, children);
        },
        NodeV::Fragment(children) => {
            lemma_prender_frozen_nodes(g1, g2, owner, children);
        },
        NodeV::Component(c) => {
            lemma_prender_frozen_scope(g1, g2, c);
        },
    }
}

pub proof fn lemma_prender_frozen_nodes(g1: GraphV, g2: GraphV, owner: int, nodes: Seq<NodeV>)
    requires
        wf_graph(g1),
        wf_graph(g2),
        same_but_frozen(g1, g2),
        0 <= owner < g1.n(),
        crate::graph::wf_nodes(g1.n(), owner, nodes),
    ensures
        crate::render::spec_prender_nodes(g1, owner, nodes) == crate::render::spec_prender_nodes(
            g2,
            owner,
            nodes,
        ),
    decreases g1.n() - owner, 0int, nodes,
{
    if nodes.len() > 0 {
        assert(crate::graph::wf_nodes(g1.n(), owner, nodes.drop_last())) by {
            assert(forall|i: int|
                0 <= i < nodes.len() - 1 ==> nodes.drop_last()[i] == nodes[i]);
        }
        lemma_prender_frozen_nodes(g1, g2, owner, nodes.drop_last());
        assert(wf_node(g1.n(), owner, nodes.last()));
        lemma_prender_frozen_node(g1, g2, owner, nodes.last());
    }
}

/// Neither does the hydration extractor.
pub proof fn lemma_extract_frozen_scope(g1: GraphV, g2: GraphV, s: int)
    requires
        wf_graph(g1),
        wf_graph(g2),
        same_but_frozen(g1, g2),
        0 <= s < g1.n(),
    ensures
        crate::hydration::spec_take_scope(g1, s) == crate::hydration::spec_take_scope(g2, s),
        spec_extract(g1, s) == spec_extract(g2, s),
    decreases g1.n() - s, 1int, g1.scopes[s].content,
{
    assert(crate::graph::wf_scope(g1, s));
    assert(g2.scopes[s] == ScopeV { frozen: g2.scopes[s].frozen, ..g1.scopes[s] });
    if g1.is_boundary(s) {
        lemma_extract_frozen_node(g1, g2, s, g1.scopes[s].content);
    }
    lemma_extract_frozen_node(g1, g2, s, g1.current_root(s));
    assert(g2.current_root(s) == g1.current_root(s));
}

pub proof fn lemma_extract_frozen_node(g1: GraphV, g2: GraphV, owner: int, node: NodeV)
    requires
        wf_graph(g1),
        wf_graph(g2),
        same_but_frozen(g1, g2),
        0 <= owner < g1.n(),
        wf_node(g1.n(), owner, node),
    ensures
        crate::hydration::spec_take_node(g1, owner, node) == crate::hydration::spec_take_node(
            g2,
            owner,
            node,
        ),
    decreases g1.n() - owner, 0int, node,
{
    match node {
        NodeV::Text(_) => {},
        NodeV::Element { tag: _, children } => {
            lemma_extract_frozen_nodes(g1, g2, owner, children);
        },
        NodeV::Fragment(children) => {
            lemma_extract_frozen_nodes(g1, g2, owner, children);
        },
        NodeV::Component(c) => {
            lemma_extract_frozen_scope(g1, g2, c);
        },
    }
}

pub proof fn lemma_extract_frozen_nodes(g1: GraphV, g2: GraphV, owner: int, nodes: Seq<NodeV>)
    requires
        wf_graph(g1),
        wf_graph(g2),
        same_but_frozen(g1, g2),
        0 <= owner < g1.n(),
        crate::graph::wf_nodes(g1.n(), owner, nodes),
    ensures
        crate::hydration::spec_take_nodes(g1, owner, nodes) == crate::hydration::spec_take_nodes(
            g2,
            owner,
            nodes,
        ),
    decreases g1.n() - owner, 0int, nodes,
{
    if nodes.len() > 0 {
        assert(crate::graph::wf_nodes(g1.n(), owner, nodes.drop_last())) by {
            assert(forall|i: int|
                0 <= i < nodes.len() - 1 ==> nodes.drop_last()[i] == nodes[i]);
        }
        lemma_extract_frozen_nodes(g1, g2, owner, nodes.drop_last());
        assert(wf_node(g1.n(), owner, nodes.last()));
        lemma_extract_frozen_node(g1, g2, owner, nodes.last());
    }
}

/// The fully resolved page body that a session caches: head, plain body,
/// post-main hydration script and trailer — no placeholder markers.
pub open spec fn spec_cached_body(cfg: IndexV, doc: DocV, g: GraphV) -> Seq<char> {
    spec_render_head(cfg, doc) + crate::render::spec_prender_scope(g, 0)
        + spec_render_after_main(cfg, g) + crate::shell::spec_render_after_body(cfg)
}

/// Cache idempotence: two sessions over the same graph and route, whatever
/// order their asynchronous work completed in, cache byte-identical
/// bodies — so a later cache hit returns exactly the body the first render
/// computed.
pub proof fn lemma_cache_idempotence(cfg: IndexV, doc: DocV, g: GraphV, o1: Seq<int>, o2: Seq<int>)
    requires
        wf_graph(g),
        crate::graph::resolves_all(g, o1),
        crate::graph::resolves_all(g, o2),
    ensures
        spec_cached_body(cfg, doc, spec_run(spec_start(cfg, doc, g), o1).graph)
            == spec_cached_body(cfg, doc, spec_run(spec_start(cfg, doc, g), o2).graph),
{
    lemma_cached_body_canonical(cfg, doc, g, o1);
    lemma_cached_body_canonical(cfg, doc, g, o2);
}

/// The cached body of a fully resolved session is the canonical one of the
/// all-resolved graph, independent of completion order.
pub proof fn lemma_cached_body_canonical(cfg: IndexV, doc: DocV, g: GraphV, evs: Seq<int>)
    requires
        wf_graph(g),
        crate::graph::resolves_all(g, evs),
    ensures
        spec_cached_body(cfg, doc, spec_run(spec_start(cfg, doc, g), evs).graph)
            == spec_cached_body(cfg, doc, crate::graph::zero_pending(g)),
{
    let st0 = spec_start(cfg, doc, g);
    let gf = spec_run(st0, evs).graph;
    let gz = crate::graph::zero_pending(g);
    lemma_start_inv(cfg, doc, g);
    lemma_run_inv(st0, evs);
    lemma_run_graph_pending(st0, evs);
    crate::graph::lemma_resolved_graph_unique(g, evs);
    assert(wf_graph(gz)) by {
        assert forall|s: int| 0 <= s < gz.n() implies crate::graph::wf_scope(gz, s) by {
            assert(crate::graph::wf_scope(g, s));
            assert(gz.scopes[s].fallback == g.scopes[s].fallback);
            assert(gz.scopes[s].content == g.scopes[s].content);
        }
    }
    assert(same_but_frozen(gz, gf)) by {
        assert forall|s: int|
            0 <= s < gz.n() implies #[trigger] gf.scopes[s] == (ScopeV {
            frozen: gf.scopes[s].frozen,
            ..gz.scopes[s]
        }) by {
            assert(gf.scopes[s] == ScopeV {
                frozen: gf.scopes[s].frozen,
                ..apply_events(g, evs).scopes[s]
            });
            assert(apply_events(g, evs).scopes[s] == gz.scopes[s]);
        }
    }
    lemma_prender_frozen_scope(gz, gf, 0);
    lemma_extract_frozen_scope(gz, gf, 0);
}

/// Placeholder/replacement pairing: in a session whose asynchronous work
/// all resolved, every mount emitted as a placeholder is replaced by
/// exactly one later chunk — the replaced mounts are pairwise distinct and
/// are exactly the mounts that were ever allocated.
pub proof fn lemma_placeholder_replacement_pairing(
    cfg: IndexV,
    doc: DocV,
    g: GraphV,
    evs: Seq<int>,
)
    requires
        wf_graph(g),
        crate::graph::resolves_all(g, evs),
    ensures
        spec_run(spec_start(cfg, doc, g), evs).replaced.no_duplicates(),
        forall|m: int|
            #[trigger] spec_run(spec_start(cfg, doc, g), evs).replaced.contains(m) <==> 0 <= m
                < spec_run(spec_start(cfg, doc, g), evs).next_mount,
{
    let st0 = spec_start(cfg, doc, g);
    let stf = spec_run(st0, evs);
    lemma_start_inv(cfg, doc, g);
    lemma_run_inv(st0, evs);
    lemma_run_graph_pending(st0, evs);
    crate::graph::lemma_apply_events_shape(g, evs);
    crate::graph::lemma_total_pending_zero(apply_events(g, evs).scopes);
    assert forall|k: int| !(#[trigger] stf.reg.contains_key(k)) by {
        if stf.reg.contains_key(k) {
            assert(stf.graph.scopes[k].pending > 0);
            assert(stf.graph.scopes[k] == ScopeV {
                frozen: stf.graph.scopes[k].frozen,
                ..apply_events(g, evs).scopes[k]
            });
        }
    }
    assert forall|m: int| #[trigger] stf.replaced.contains(m) implies 0 <= m < stf.next_mount by {
        let i = choose|i: int| 0 <= i < stf.replaced.len() && stf.replaced[i] == m;
        assert(0 <= stf.replaced[i] < stf.next_mount);
    }
    assert forall|m: int| 0 <= m < stf.next_mount implies #[trigger] stf.replaced.contains(
        m,
    ) by {
        if reg_has_mount(stf.reg, m) {
            let k = choose|k: int|
                #[trigger] stf.reg.contains_key(k) && (stf.reg[k].mount as int) == m;
        }
    }
}

/// Freeze invariant: once a suspense boundary has been resolved into a
/// replacement chunk — at which point it is frozen — no later step of the
/// session ever re-renders it into another chunk; over a whole session each
/// boundary is resolved at most once.
pub proof fn lemma_freeze_invariant(cfg: IndexV, doc: DocV, g: GraphV, evs: Seq<int>, k: int)
    requires
        wf_graph(g),
        0 <= k <= evs.len(),
    ensures
        spec_run(spec_start(cfg, doc, g), evs).resolved.no_duplicates(),
        forall|s: int, i: int|
            0 <= s < g.n() && #[trigger] spec_run(
                spec_start(cfg, doc, g),
                evs.take(k),
            ).graph.scopes[s].frozen && spec_run(spec_start(cfg, doc, g), evs.take(k)).resolved.len()
                <= i < spec_run(spec_start(cfg, doc, g), evs).resolved.len() ==> #[trigger] spec_run(
                spec_start(cfg, doc, g),
                evs,
            ).resolved[i] != s,
{
    let st0 = spec_start(cfg, doc, g);
    let stk = spec_run(st0, evs.take(k));
    lemma_start_inv(cfg, doc, g);
    lemma_run_inv(st0, evs);
    lemma_run_inv(st0, evs.take(k));
    assert(evs =~= evs.take(k) + evs.skip(k));
    lemma_run_split(st0, evs.take(k), evs.skip(k));
    lemma_no_rerender_after_freeze(stk, evs.skip(k));
}

/// From any invariant-respecting state, later steps never resolve a scope
/// that is already frozen.
pub proof fn lemma_no_rerender_after_freeze(st: SessionV, evs: Seq<int>)
    requires
        session_inv(st),
    ensures
        forall|s: int, i: int|
            0 <= s < st.graph.n() && (#[trigger] st.graph.scopes[s].frozen) && st.resolved.len()
                <= i < spec_run(st, evs).resolved.len() ==> #[trigger] spec_run(
                st,
                evs,
            ).resolved[i] != s,
    decreases evs.len(),
{
    if evs.len() > 0 {
        lemma_no_rerender_after_freeze(st, evs.drop_last());
        let stk = spec_run(st, evs.drop_last());
        lemma_run_inv(st, evs.drop_last());
        lemma_step_inv(stk, evs.last());
        let e = evs.last();
        let stf = spec_step(stk, e);
        assert forall|s: int, i: int|
            0 <= s < st.graph.n() && (#[trigger] st.graph.scopes[s].frozen) && st.resolved.len()
                <= i < stf.resolved.len() implies #[trigger] stf.resolved[i] != s by {
            if i < stk.resolved.len() {
                assert(stf.resolved[i] == stk.resolved[i]);
            } else {
                // the step resolved a registered — hence unfrozen — boundary,
                // while a frozen scope stays frozen for good
                assert(stk.graph.scopes[s].frozen);
                assert(stf.resolved[i] == e);
                assert(stk.reg.contains_key(e));
                assert(!stk.graph.scopes[e].frozen);
            }
        }
    }
}

/// Cancellation: a session cut short after any number of events has
/// produced exactly a prefix of the chunks of the full session — dropping
/// the stream mid-resolution only stops further chunks, it never rewrites
/// ones already sent. The executable orchestrator additionally performs no
/// cache write for a cancelled session.
pub proof fn lemma_cancellation_prefix(cfg: IndexV, doc: DocV, g: GraphV, evs: Seq<int>, k: int)
    requires
        wf_graph(g),
        0 <= k <= evs.len(),
    ensures
        spec_run(spec_start(cfg, doc, g), evs.take(k)).chunks.len() <= spec_run(
            spec_start(cfg, doc, g),
            evs,
        ).chunks.len(),
        forall|i: int|
            0 <= i < spec_run(spec_start(cfg, doc, g), evs.take(k)).chunks.len()
                ==> #[trigger] spec_run(spec_start(cfg, doc, g), evs).chunks[i] == spec_run(
                spec_start(cfg, doc, g),
                evs.take(k),
            ).chunks[i],
{
    let st0 = spec_start(cfg, doc, g);
    lemma_start_inv(cfg, doc, g);
    lemma_run_inv(st0, evs.take(k));
    assert(evs =~= evs.take(k) + evs.skip(k));
    lemma_run_split(st0, evs.take(k), evs.skip(k));
    lemma_run_inv(spec_run(st0, evs.take(k)), evs.skip(k));
}

} // verus!

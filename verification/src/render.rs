//! Rendering component trees to markup.
//!
//! Two walks share the graph model. The plain walk renders a scope's
//! current tree straight to markup with no streaming artifacts — it
//! produces cache entries, which must never contain placeholder markers.
//! The streaming walk is the component callback of the initial frame and of
//! replacement chunks: a scope that currently acts as a suspense boundary
//! renders its loading state into a fresh placeholder, registers itself in
//! the scope→mount registry, and attributes itself to the nearest open
//! ancestor boundary on the nesting stack — or, if it has no ancestor,
//! begins capturing errors at once.

use vstd::prelude::*;

use crate::graph::{wf_graph, wf_node, wf_nodes, Graph, GraphV, NodeV, VNode};
use crate::registry::{spec_record_child, BoundaryV, PendingSuspenseBoundary, Registry};
use crate::streaming::{
    spec_placeholder_close, spec_placeholder_open, StreamingRenderer,
};

verus! {

/// A reusable renderer instance. Renderers are pooled across sessions;
/// `pre_render` marks output as destined for client-side hydration.
pub struct Renderer {
    pub pre_render: bool,
}

/// A renderer configured for pre-rendering (hydration-ready output).
pub fn pre_renderer() -> (r: Renderer)
    ensures
        r.pre_render,
{
    Renderer { pre_render: true }
}

// ---------------------------------------------------------------------------
// The plain walk: resolved markup, no placeholders.
// ---------------------------------------------------------------------------

/// Markup of scope `s` as it currently stands, rendered inline.
pub open spec fn spec_prender_scope(g: GraphV, s: int) -> Seq<char>
    decreases g.n() - s, 1int, g.scopes[s].content,
        when 0 <= s < g.n() && wf_graph(g)
{
    spec_prender_node(g, s, g.current_root(s))
}

/// Markup of one rendered node of scope `owner`.
pub open spec fn spec_prender_node(g: GraphV, owner: int, node: NodeV) -> Seq<char>
    decreases g.n() - owner, 0int, node,
        when 0 <= owner < g.n() && wf_graph(g) && wf_node(g.n(), owner, node)
{
    match node {
        NodeV::Text(t) => t,
        NodeV::Element { tag, children } => "<"@ + tag + ">"@ + spec_prender_nodes(
            g,
            owner,
            children,
        ) + "</"@ + tag + ">"@,
        NodeV::Fragment(children) => spec_prender_nodes(g, owner, children),
        NodeV::Component(c) => spec_prender_scope(g, c),
    }
}

pub open spec fn spec_prender_nodes(g: GraphV, owner: int, nodes: Seq<NodeV>) -> Seq<char>
    decreases g.n() - owner, 0int, nodes,
        when 0 <= owner < g.n() && wf_graph(g) && wf_nodes(g.n(), owner, nodes)
{
    if nodes.len() == 0 {
        Seq::empty()
    } else {
        spec_prender_nodes(g, owner, nodes.drop_last()) + spec_prender_node(
            g,
            owner,
            nodes.last(),
        )
    }
}

// ---------------------------------------------------------------------------
// The streaming walk.
// ---------------------------------------------------------------------------

/// The state the streaming walk threads: the markup built so far, the next
/// fresh mount, the scope→mount registry, the nesting stack of boundaries
/// being rendered into, and the scopes capturing errors.
#[verifier::ext_equal]
pub ghost struct RState {
    pub out: Seq<char>,
    pub next_mount: nat,
    pub reg: Map<int, BoundaryV>,
    pub stack: Seq<int>,
    pub capturing: Set<int>,
}

/// Render scope `s` through the streaming callback. A scope that currently
/// acts as a suspense boundary — and holds no live placeholder yet — writes
/// its loading state into a fresh placeholder, registers itself, records
/// itself as a child of the nearest open ancestor boundary, and, as a root
/// boundary with no ancestor to defer to, begins capturing errors at once.
/// Any other scope renders inline.
pub open spec fn spec_srender_scope(g: GraphV, s: int, st: RState) -> RState
    decreases g.n() - s, 1int, g.scopes[s].content,
        when 0 <= s < g.n() && wf_graph(g)
{
    if g.is_boundary(s) && !st.reg.contains_key(s) {
        let m = st.next_mount;
        let reg1 = st.reg.insert(s, BoundaryV { mount: m, children: Seq::empty() });
        let reg2 = if st.stack.len() > 0 {
            spec_record_child(reg1, st.stack.last(), s)
        } else {
            reg1
        };
        let cap1 = if st.stack.len() == 0 {
            st.capturing.insert(s)
        } else {
            st.capturing
        };
        let st1 = RState {
            out: st.out + spec_placeholder_open(m),
            next_mount: m + 1,
            reg: reg2,
            stack: st.stack.push(s),
            capturing: cap1,
        };
        let st2 = spec_srender_node(g, s, g.scopes[s].fallback, st1);
        RState { out: st2.out + spec_placeholder_close(), stack: st2.stack.drop_last(), ..st2 }
    } else {
        spec_srender_node(g, s, g.current_root(s), st)
    }
}

pub open spec fn spec_srender_node(g: GraphV, owner: int, node: NodeV, st: RState) -> RState
    decreases g.n() - owner, 0int, node,
        when 0 <= owner < g.n() && wf_graph(g) && wf_node(g.n(), owner, node)
{
    match node {
        NodeV::Text(t) => RState { out: st.out + t, ..st },
        NodeV::Element { tag, children } => {
            let st1 = RState { out: st.out + "<"@ + tag + ">"@, ..st };
            let st2 = spec_srender_nodes(g, owner, children, st1);
            RState { out: st2.out + "</"@ + tag + ">"@, ..st2 }
        },
        NodeV::Fragment(children) => spec_srender_nodes(g, owner, children, st),
        NodeV::Component(c) => spec_srender_scope(g, c, st),
    }
}

pub open spec fn spec_srender_nodes(g: GraphV, owner: int, nodes: Seq<NodeV>, st: RState) -> RState
    decreases g.n() - owner, 0int, nodes,
        when 0 <= owner < g.n() && wf_graph(g) && wf_nodes(g.n(), owner, nodes)
{
    if nodes.len() == 0 {
        st
    } else {
        spec_srender_node(
            g,
            owner,
            nodes.last(),
            spec_srender_nodes(g, owner, nodes.drop_last(), st),
        )
    }
}

// ---------------------------------------------------------------------------
// The mount-accounting invariant of the streaming walk.
// ---------------------------------------------------------------------------

/// The scopes whose placeholder has been streamed in final form already.
pub open spec fn frozen_set(g: GraphV) -> Set<int> {
    Set::new(|k: int| 0 <= k < g.n() && g.scopes[k].frozen)
}

/// The scopes that hold or have held a placeholder: live registry entries
/// plus frozen scopes. Each of them consumed one mount identifier.
pub open spec fn charged_set(g: GraphV, st: RState) -> Set<int> {
    st.reg.dom().union(frozen_set(g))
}

/// Every child scope recorded under a registry entry is in bounds.
pub open spec fn children_ok(g: GraphV, reg: Map<int, BoundaryV>) -> bool {
    forall|k: int| #[trigger]
        reg.contains_key(k) ==> forall|j: int|
            0 <= j < reg[k].children.len() ==> 0 <= #[trigger] reg[k].children[j] < g.n()
}

/// Mount accounting: registry entries are live pending boundaries with
/// pairwise distinct mounts below the allocation counter, and the counter
/// never exceeds the number of scopes ever charged with a placeholder —
/// which bounds it by the scope count, so allocation cannot overflow.
pub open spec fn mounts_inv(g: GraphV, st: RState) -> bool {
    &&& forall|k: int| #[trigger]
        st.reg.contains_key(k) ==> 0 <= k < g.n() && g.scopes[k].pending > 0
            && !g.scopes[k].frozen && (st.reg[k].mount as int) < st.next_mount
    &&& forall|k1: int, k2: int|
        st.reg.contains_key(k1) && st.reg.contains_key(k2) && k1 != k2 ==> #[trigger] st.reg[
            k1
        ].mount != #[trigger] st.reg[k2].mount
    &&& children_ok(g, st.reg)
    &&& charged_set(g, st).finite()
    &&& st.next_mount <= charged_set(g, st).len()
}

/// Some registry entry of `reg` that is not in `exclude` carries mount `m`.
pub open spec fn covers(reg: Map<int, BoundaryV>, exclude: Map<int, BoundaryV>, m: int) -> bool {
    exists|k: int| #[trigger] reg.contains_key(k) && !exclude.contains_key(k) && (reg[
        k
    ].mount as int) == m
}

/// Registering a new boundary keeps the accounting: one more scope is
/// charged, one more mount is consumed.
pub proof fn lemma_charge_one(g: GraphV, st: RState, st1: RState, s: int)
    requires
        mounts_inv(g, st),
        wf_graph(g),
        0 <= s < g.n(),
        g.scopes[s].pending > 0,
        !st.reg.contains_key(s),
        st1.next_mount == st.next_mount + 1,
        st1.reg.dom() =~= st.reg.dom().insert(s),
        children_ok(g, st1.reg),
        forall|k: int| #[trigger]
            st1.reg.contains_key(k) ==> if k == s {
                st1.reg[k].mount == st.next_mount
            } else {
                st.reg.contains_key(k) && st1.reg[k].mount == st.reg[k].mount
            },
    ensures
        mounts_inv(g, st1),
        st.next_mount < g.n(),
{
    assert(crate::graph::wf_scope(g, s));
    assert(!g.scopes[s].frozen);
    let c0 = charged_set(g, st);
    let c1 = charged_set(g, st1);
    assert(c1 =~= c0.insert(s));
    assert(!c0.contains(s));
    assert(c1.len() == c0.len() + 1);
    let all = vstd::set_lib::set_int_range(0, g.n());
    vstd::set_lib::lemma_int_range(0, g.n());
    assert(c1.subset_of(all));
    vstd::set_lib::lemma_len_subset(c1, all);
    assert(c1.len() <= g.n());
}

/// How the streaming walk grows the state: the stack is restored, the
/// counter only grows, existing registry entries keep their mounts, new
/// entries are live boundaries with fresh mounts, capturing only grows, and
/// the accounting invariant is preserved.
pub open spec fn srender_grows(g: GraphV, st: RState, st2: RState) -> bool {
    &&& mounts_inv(g, st2)
    &&& st2.stack == st.stack
    &&& st2.next_mount >= st.next_mount
    &&& forall|k: int| #[trigger]
        st.reg.contains_key(k) ==> st2.reg.contains_key(k) && st2.reg[k].mount == st.reg[
            k
        ].mount
    &&& forall|k: int| #[trigger]
        st2.reg.contains_key(k) && !st.reg.contains_key(k) ==> 0 <= k < g.n()
            && g.scopes[k].pending > 0 && !g.scopes[k].frozen && st.next_mount <= (st2.reg[
            k
        ].mount as int) < st2.next_mount
    &&& forall|m: int| st.next_mount <= m < st2.next_mount ==> covers(st2.reg, st.reg, m)
    &&& forall|k: int| st.capturing.contains(k) ==> st2.capturing.contains(k)
}

pub proof fn lemma_srender_scope(g: GraphV, s: int, st: RState)
    requires
        wf_graph(g),
        0 <= s < g.n(),
        mounts_inv(g, st),
    ensures
        srender_grows(g, st, spec_srender_scope(g, s, st)),
    decreases g.n() - s, 1int, g.scopes[s].content,
{
    assert(crate::graph::wf_scope(g, s));
    if g.is_boundary(s) && !st.reg.contains_key(s) {
        let m = st.next_mount;
        let reg1 = st.reg.insert(s, BoundaryV { mount: m, children: Seq::empty() });
        let reg2 = if st.stack.len() > 0 {
            spec_record_child(reg1, st.stack.last(), s)
        } else {
            reg1
        };
        let cap1 = if st.stack.len() == 0 {
            st.capturing.insert(s)
        } else {
            st.capturing
        };
        let st1 = RState {
            out: st.out + spec_placeholder_open(m),
            next_mount: m + 1,
            reg: reg2,
            stack: st.stack.push(s),
            capturing: cap1,
        };
        assert(reg2.dom() =~= st.reg.dom().insert(s));
        assert(children_ok(g, reg2)) by {
            assert forall|k: int| #[trigger] reg2.contains_key(k) implies forall|j: int|
                0 <= j < reg2[k].children.len() ==> 0 <= #[trigger] reg2[k].children[j]
                    < g.n() by {
                if k == s {
                    if st.stack.len() > 0 && st.stack.last() == s {
                        assert(reg2[k].children =~= Seq::<int>::empty().push(s));
                    } else {
                        assert(reg2[k].children =~= Seq::<int>::empty());
                    }
                } else if st.stack.len() > 0 && k == st.stack.last() && reg1.contains_key(k) {
                    assert(reg2[k].children =~= st.reg[k].children.push(s));
                }
            }
        }
        lemma_charge_one(g, st, st1, s);
        lemma_srender_node(g, s, g.scopes[s].fallback, st1);
        let st2 = spec_srender_node(g, s, g.scopes[s].fallback, st1);
        let st3 = RState {
            out: st2.out + spec_placeholder_close(),
            stack: st2.stack.drop_last(),
            ..st2
        };
        assert(st3.stack =~= st.stack);
        assert(charged_set(g, st3) =~= charged_set(g, st2));
        assert(spec_srender_scope(g, s, st) == st3);
        assert(st1.reg.contains_key(s) && st1.reg[s].mount == m);
        assert(mounts_inv(g, st3));
        assert(st3.next_mount >= st.next_mount);
        assert forall|k: int| #[trigger]
            st.reg.contains_key(k) implies st3.reg.contains_key(k) && st3.reg[k].mount == st.reg[
            k
        ].mount by {
            assert(reg1.contains_key(k) && reg1[k].mount == st.reg[k].mount);
            assert(reg2.contains_key(k) && reg2[k].mount == reg1[k].mount);
            assert(st1.reg.contains_key(k) && st1.reg[k].mount == st.reg[k].mount);
        }
        assert forall|k: int| #[trigger]
            st3.reg.contains_key(k) && !st.reg.contains_key(k) implies 0 <= k < g.n()
            && g.scopes[k].pending > 0 && !g.scopes[k].frozen && st.next_mount <= (st3.reg[
            k
        ].mount as int) < st3.next_mount by {
            if k == s {
                assert(st3.reg[k].mount == m);
            } else if !st1.reg.contains_key(k) {
                assert(st1.next_mount <= (st3.reg[k].mount as int) < st3.next_mount);
            }
        }
        assert forall|m2: int| st.next_mount <= m2 < st3.next_mount implies covers(
            st3.reg,
            st.reg,
            m2,
        ) by {
            if m2 == m {
                assert(st3.reg.contains_key(s) && !st.reg.contains_key(s) && (st3.reg[
                    s
                ].mount as int) == m2);
            } else {
                assert(st1.next_mount <= m2 < st2.next_mount);
                assert(covers(st2.reg, st1.reg, m2));
                let k = choose|k: int|
                    #[trigger] st2.reg.contains_key(k) && !st1.reg.contains_key(k) && (st2.reg[
                        k
                    ].mount as int) == m2;
                assert(st3.reg.contains_key(k) && !st.reg.contains_key(k) && (st3.reg[
                    k
                ].mount as int) == m2);
            }
        }
        assert(forall|k: int| st.capturing.contains(k) ==> st3.capturing.contains(k));
    } else {
        lemma_srender_node(g, s, g.current_root(s), st);
    }
}

pub proof fn lemma_srender_node(g: GraphV, owner: int, node: NodeV, st: RState)
    requires
        wf_graph(g),
        0 <= owner < g.n(),
        wf_node(g.n(), owner, node),
        mounts_inv(g, st),
    ensures
        srender_grows(g, st, spec_srender_node(g, owner, node, st)),
    decreases g.n() - owner, 0int, node,
{
    match node {
        NodeV::Text(_) => {},
        NodeV::Element { tag, children } => {
            let st1 = RState { out: st.out + "<"@ + tag + ">"@, ..st };
            assert(charged_set(g, st1) =~= charged_set(g, st));
            lemma_srender_nodes(g, owner, children, st1);
            let st2 = spec_srender_nodes(g, owner, children, st1);
            let st3 = RState { out: st2.out + "</"@ + tag + ">"@, ..st2 };
            assert(charged_set(g, st3) =~= charged_set(g, st2));
        },
        NodeV::Fragment(children) => {
            lemma_srender_nodes(g, owner, children, st);
        },
        NodeV::Component(c) => {
            lemma_srender_scope(g, c, st);
        },
    }
}

/// Every scope id on the nesting stack is in bounds for the graph.
pub open spec fn stack_ok(stack: Seq<usize>, n_scopes: int) -> bool {
    forall|i: int| 0 <= i < stack.len() ==> (#[trigger] stack[i] as int) < n_scopes
}

/// The streaming-walk state held by the executable walk.
pub open spec fn rstate_of(
    out: Seq<char>,
    stream: StreamingRenderer,
    registry: Registry,
    stack: Seq<usize>,
) -> RState {
    RState {
        out,
        next_mount: stream.next_mount as nat,
        reg: registry.reg_map(),
        stack: stack.map_values(|x: usize| x as int),
        capturing: registry.cap_set(),
    }
}

impl Renderer {
    /// Render scope `scope` as it currently stands, inline and without any
    /// streaming artifacts.
    pub fn render_scope(&self, into: &mut String, virtual_dom: &Graph, scope: usize)
        requires
            wf_graph(virtual_dom@),
            scope < virtual_dom@.n(),
        ensures
            final(into)@ == old(into)@ + spec_prender_scope(virtual_dom@, scope as int),
        decreases virtual_dom@.n() - scope, 1int, virtual_dom.scopes@[scope as int].content,
    {
        let sc = &virtual_dom.scopes[scope];
        proof {
            assert(crate::graph::wf_scope(virtual_dom@, scope as int));
            assert(virtual_dom@.scopes[scope as int] == crate::graph::scope_view(
                virtual_dom.scopes@[scope as int],
            ));
        }
        if sc.suspense && sc.pending > 0 {
            self.render_node(into, virtual_dom, scope, &sc.fallback);
        } else {
            self.render_node(into, virtual_dom, scope, &sc.content);
        }
    }

    fn render_node(&self, into: &mut String, virtual_dom: &Graph, owner: usize, node: &VNode)
        requires
            wf_graph(virtual_dom@),
            owner < virtual_dom@.n(),
            wf_node(virtual_dom@.n(), owner as int, node@),
        ensures
            final(into)@ == old(into)@ + spec_prender_node(virtual_dom@, owner as int, node@),
        decreases virtual_dom@.n() - owner, 0int, *node,
    {
        match node {
            VNode::Text(t) => {
                into.append(t.as_str());
            },
            VNode::Element { tag, children } => {
                into.append("<");
                into.append(tag.as_str());
                into.append(">");
                self.render_nodes(into, virtual_dom, owner, children);
                into.append("</");
                into.append(tag.as_str());
                into.append(">");
                proof {
                    assert(final(into)@ =~= old(into)@ + spec_prender_node(
                        virtual_dom@,
                        owner as int,
                        node@,
                    ));
                }
            },
            VNode::Fragment(children) => {
                self.render_nodes(into, virtual_dom, owner, children);
            },
            VNode::Component(c) => {
                self.render_scope(into, virtual_dom, *c);
            },
        }
    }

    fn render_nodes(&self, into: &mut String, virtual_dom: &Graph, owner: usize, nodes: &Vec<VNode>)
        requires
            wf_graph(virtual_dom@),
            owner < virtual_dom@.n(),
            wf_nodes(virtual_dom@.n(), owner as int, crate::graph::nodes_view(nodes@)),
        ensures
            final(into)@ == old(into)@ + spec_prender_nodes(
                virtual_dom@,
                owner as int,
                crate::graph::nodes_view(nodes@),
            ),
        decreases virtual_dom@.n() - owner, 0int, *nodes,
    {
        proof {
            crate::graph::lemma_nodes_view(nodes@);
        }
        let ghost nv = crate::graph::nodes_view(nodes@);
        let n = nodes.len();
        let mut i: usize = 0;
        while i < n
            invariant
                wf_graph(virtual_dom@),
                owner < virtual_dom@.n(),
                wf_nodes(virtual_dom@.n(), owner as int, nv),
                nv == crate::graph::nodes_view(nodes@),
                nv.len() == nodes@.len(),
                forall|j: int| 0 <= j < nodes@.len() ==> nv[j] == crate::graph::node_view(
                    nodes@[j],
                ),
                n == nodes.len(),
                i <= n,
                into@ == old(into)@ + spec_prender_nodes(
                    virtual_dom@,
                    owner as int,
                    nv.take(i as int),
                ),
            decreases n - i,
        {
            proof {
                assert(wf_node(virtual_dom@.n(), owner as int, nv[i as int]));
            }
            self.render_node(into, virtual_dom, owner, &nodes[i]);
            proof {
                assert(nv.take(i + 1).drop_last() =~= nv.take(i as int));
                assert(nv.take(i + 1).last() == nv[i as int]);
                assert(wf_nodes(virtual_dom@.n(), owner as int, nv.take(i + 1))) by {
                    assert(forall|j: int| 0 <= j < i + 1 ==> nv.take(i + 1)[j] == nv[j]);
                }
                assert(wf_nodes(virtual_dom@.n(), owner as int, nv.take(i as int))) by {
                    assert(forall|j: int| 0 <= j < i ==> nv.take(i as int)[j] == nv[j]);
                }
                assert(into@ =~= old(into)@ + spec_prender_nodes(
                    virtual_dom@,
                    owner as int,
                    nv.take(i + 1),
                ));
            }
            i = i + 1;
        }
        proof {
            assert(nv.take(n as int) =~= nv);
        }
    }

    /// Render the whole graph from the root, fully inline: the form that
    /// cache entries take. The output holds no placeholder markers.
    pub fn render_to(&self, into: &mut String, virtual_dom: &Graph)
        requires
            wf_graph(virtual_dom@),
        ensures
            final(into)@ == old(into)@ + spec_prender_scope(virtual_dom@, 0),
    {
        self.render_scope(into, virtual_dom, 0);
    }
}

/// Render scope `scope` through the streaming component callback: pending
/// suspense boundaries become placeholders, register themselves keyed by
/// scope id, and are attributed to the nearest open ancestor boundary — or
/// begin capturing errors if they have none.
pub fn streaming_render_scope(
    virtual_dom: &Graph,
    scope: usize,
    out: &mut String,
    stream: &mut StreamingRenderer,
    registry: &mut Registry,
    stack: &mut Vec<usize>,
)
    requires
        wf_graph(virtual_dom@),
        scope < virtual_dom@.n(),
        old(registry).wf(virtual_dom@.n()),
        stack_ok(old(stack)@, virtual_dom@.n()),
        mounts_inv(
            virtual_dom@,
            rstate_of(old(out)@, *old(stream), *old(registry), old(stack)@),
        ),
    ensures
        rstate_of(final(out)@, *final(stream), *final(registry), final(stack)@)
            == spec_srender_scope(
            virtual_dom@,
            scope as int,
            rstate_of(old(out)@, *old(stream), *old(registry), old(stack)@),
        ),
        final(registry).wf(virtual_dom@.n()),
        stack_ok(final(stack)@, virtual_dom@.n()),
        final(stack)@.len() == old(stack)@.len(),
        final(stream).chunks == old(stream).chunks,
        final(stream).pending == old(stream).pending,
        final(stream).closed == old(stream).closed,
    decreases virtual_dom@.n() - scope, 1int, virtual_dom.scopes@[scope as int].content,
{
    let ghost g = virtual_dom@;
    let ghost st0 = rstate_of(out@, *stream, *registry, stack@);
    let sc = &virtual_dom.scopes[scope];
    proof {
        assert(crate::graph::wf_scope(g, scope as int));
        assert(g.scopes[scope as int] == crate::graph::scope_view(
            virtual_dom.scopes@[scope as int],
        ));
    }
    let registered = registry.contains(scope);
    if sc.suspense && sc.pending > 0 && !registered {
        let n_scopes = virtual_dom.scopes.len();
        proof {
            // The allocation counter stays below the scope count.
            let c0 = charged_set(g, st0);
            let all = vstd::set_lib::set_int_range(0, g.n());
            vstd::set_lib::lemma_int_range(0, g.n());
            assert(!c0.contains(scope as int));
            assert(c0.insert(scope as int).subset_of(all));
            vstd::set_lib::lemma_len_subset(c0.insert(scope as int), all);
            assert(c0.len() + 1 <= g.n());
            assert(g.n() == n_scopes as int);
            assert(n_scopes as nat <= u64::MAX as nat);
            assert((stream.next_mount as nat) < u64::MAX as nat);
        }
        let m = stream.allocate_mount();
        stream.write_placeholder_open(out, m);
        registry.insert(scope, PendingSuspenseBoundary { mount: m, children: Vec::new() });
        let ghost reg1 = st0.reg.insert(
            scope as int,
            BoundaryV { mount: m as nat, children: Seq::empty() },
        );
        proof {
            assert(registry.reg_map() =~= reg1) by {
                assert(Seq::<usize>::empty().map_values(|c: usize| c as int)
                    =~= Seq::<int>::empty());
            }
        }
        if stack.len() > 0 {
            let parent = stack[stack.len() - 1];
            registry.record_child(parent, scope);
            proof {
                assert(st0.stack.last() == parent as int);
            }
        } else {
            registry.start_capturing(scope);
            proof {
                assert(st0.stack.len() == 0);
            }
        }
        stack.push(scope);
        let ghost st1 = RState {
            out: st0.out + spec_placeholder_open(m as nat),
            next_mount: m as nat + 1,
            reg: if st0.stack.len() > 0 {
                spec_record_child(reg1, st0.stack.last(), scope as int)
            } else {
                reg1
            },
            stack: st0.stack.push(scope as int),
            capturing: if st0.stack.len() == 0 {
                st0.capturing.insert(scope as int)
            } else {
                st0.capturing
            },
        };
        proof {
            assert(stack@.map_values(|x: usize| x as int) =~= st1.stack);
            assert(rstate_of(out@, *stream, *registry, stack@) =~= st1);
            assert(st1.reg.dom() =~= st0.reg.dom().insert(scope as int));
            assert(children_ok(g, st1.reg)) by {
                let s = scope as int;
                assert forall|k: int| #[trigger] st1.reg.contains_key(k) implies forall|j: int|
                    0 <= j < st1.reg[k].children.len() ==> 0 <= #[trigger] st1.reg[k].children[j]
                        < g.n() by {
                    if k == s {
                        if st0.stack.len() > 0 && st0.stack.last() == s {
                            assert(st1.reg[k].children =~= Seq::<int>::empty().push(s));
                        } else {
                            assert(st1.reg[k].children =~= Seq::<int>::empty());
                        }
                    } else if st0.stack.len() > 0 && k == st0.stack.last() && reg1.contains_key(
                        k,
                    ) {
                        assert(st1.reg[k].children =~= st0.reg[k].children.push(s));
                    }
                }
            }
            lemma_charge_one(g, st0, st1, scope as int);
        }
        streaming_render_node(virtual_dom, scope, &sc.fallback, out, stream, registry, stack);
        let ghost st2 = spec_srender_node(g, scope as int, g.scopes[scope as int].fallback, st1);
        proof {
            lemma_srender_node(g, scope as int, g.scopes[scope as int].fallback, st1);
            assert(st2.stack == st1.stack);
            assert(stack@.map_values(|x: usize| x as int) == st2.stack);
            assert(stack@.len() == st2.stack.len());
            assert(stack@.len() > 0);
        }
        stream.write_placeholder_close(out);
        let _popped = stack.pop();
        proof {
            assert(stack@.map_values(|x: usize| x as int) =~= st2.stack.drop_last());
            let st3 = RState {
                out: st2.out + spec_placeholder_close(),
                stack: st2.stack.drop_last(),
                ..st2
            };
            assert(rstate_of(out@, *stream, *registry, stack@) =~= st3);
            assert(spec_srender_scope(g, scope as int, st0) == st3);
        }
    } else {
        if sc.suspense && sc.pending > 0 {
            streaming_render_node(virtual_dom, scope, &sc.fallback, out, stream, registry, stack);
        } else {
            streaming_render_node(virtual_dom, scope, &sc.content, out, stream, registry, stack);
        }
    }
}

fn streaming_render_node(
    virtual_dom: &Graph,
    owner: usize,
    node: &VNode,
    out: &mut String,
    stream: &mut StreamingRenderer,
    registry: &mut Registry,
    stack: &mut Vec<usize>,
)
    requires
        wf_graph(virtual_dom@),
        owner < virtual_dom@.n(),
        wf_node(virtual_dom@.n(), owner as int, node@),
        old(registry).wf(virtual_dom@.n()),
        stack_ok(old(stack)@, virtual_dom@.n()),
        mounts_inv(
            virtual_dom@,
            rstate_of(old(out)@, *old(stream), *old(registry), old(stack)@),
        ),
    ensures
        rstate_of(final(out)@, *final(stream), *final(registry), final(stack)@)
            == spec_srender_node(
            virtual_dom@,
            owner as int,
            node@,
            rstate_of(old(out)@, *old(stream), *old(registry), old(stack)@),
        ),
        final(registry).wf(virtual_dom@.n()),
        stack_ok(final(stack)@, virtual_dom@.n()),
        final(stack)@.len() == old(stack)@.len(),
        final(stream).chunks == old(stream).chunks,
        final(stream).pending == old(stream).pending,
        final(stream).closed == old(stream).closed,
    decreases virtual_dom@.n() - owner, 0int, *node,
{
    let ghost g = virtual_dom@;
    let ghost st0 = rstate_of(out@, *stream, *registry, stack@);
    match node {
        VNode::Text(t) => {
            out.append(t.as_str());
            proof {
                assert(rstate_of(out@, *stream, *registry, stack@) =~= spec_srender_node(
                    g,
                    owner as int,
                    node@,
                    st0,
                ));
            }
        },
        VNode::Element { tag, children } => {
            out.append("<");
            out.append(tag.as_str());
            out.append(">");
            let ghost st1 = RState { out: st0.out + "<"@ + tag@ + ">"@, ..st0 };
            proof {
                assert(rstate_of(out@, *stream, *registry, stack@) =~= st1);
                assert(charged_set(g, st1) =~= charged_set(g, st0));
            }
            streaming_render_nodes(virtual_dom, owner, children, out, stream, registry, stack);
            let ghost st2 = spec_srender_nodes(
                g,
                owner as int,
                crate::graph::nodes_view(children@),
                st1,
            );
            out.append("</");
            out.append(tag.as_str());
            out.append(">");
            proof {
                let st3 = RState { out: st2.out + "</"@ + tag@ + ">"@, ..st2 };
                assert(rstate_of(out@, *stream, *registry, stack@) =~= st3);
                assert(spec_srender_node(g, owner as int, node@, st0) == st3);
            }
        },
        VNode::Fragment(children) => {
            streaming_render_nodes(virtual_dom, owner, children, out, stream, registry, stack);
        },
        VNode::Component(c) => {
            streaming_render_scope(virtual_dom, *c, out, stream, registry, stack);
        },
    }
}

fn streaming_render_nodes(
    virtual_dom: &Graph,
    owner: usize,
    nodes: &Vec<VNode>,
    out: &mut String,
    stream: &mut StreamingRenderer,
    registry: &mut Registry,
    stack: &mut Vec<usize>,
)
    requires
        wf_graph(virtual_dom@),
        owner < virtual_dom@.n(),
        wf_nodes(virtual_dom@.n(), owner as int, crate::graph::nodes_view(nodes@)),
        old(registry).wf(virtual_dom@.n()),
        stack_ok(old(stack)@, virtual_dom@.n()),
        mounts_inv(
            virtual_dom@,
            rstate_of(old(out)@, *old(stream), *old(registry), old(stack)@),
        ),
    ensures
        rstate_of(final(out)@, *final(stream), *final(registry), final(stack)@)
            == spec_srender_nodes(
            virtual_dom@,
            owner as int,
            crate::graph::nodes_view(nodes@),
            rstate_of(old(out)@, *old(stream), *old(registry), old(stack)@),
        ),
        final(registry).wf(virtual_dom@.n()),
        stack_ok(final(stack)@, virtual_dom@.n()),
        final(stack)@.len() == old(stack)@.len(),
        final(stream).chunks == old(stream).chunks,
        final(stream).pending == old(stream).pending,
        final(stream).closed == old(stream).closed,
    decreases virtual_dom@.n() - owner, 0int, *nodes,
{
    proof {
        crate::graph::lemma_nodes_view(nodes@);
    }
    let ghost g = virtual_dom@;
    let ghost st0 = rstate_of(out@, *stream, *registry, stack@);
    let ghost nv = crate::graph::nodes_view(nodes@);
    let n = nodes.len();
    let mut i: usize = 0;
    while i < n
        invariant
            wf_graph(g),
            g == virtual_dom@,
            owner < g.n(),
            wf_nodes(g.n(), owner as int, nv),
            nv == crate::graph::nodes_view(nodes@),
            nv.len() == nodes@.len(),
            forall|j: int| 0 <= j < nodes@.len() ==> nv[j] == crate::graph::node_view(nodes@[j]),
            n == nodes.len(),
            i <= n,
            registry.wf(g.n()),
            stack_ok(stack@, g.n()),
            stack@.len() == old(stack)@.len(),
            rstate_of(out@, *stream, *registry, stack@) == spec_srender_nodes(
                g,
                owner as int,
                nv.take(i as int),
                st0,
            ),
            mounts_inv(g, rstate_of(out@, *stream, *registry, stack@)),
            stream.chunks == old(stream).chunks,
            stream.pending == old(stream).pending,
            stream.closed == old(stream).closed,
            st0 == rstate_of(old(out)@, *old(stream), *old(registry), old(stack)@),
        decreases n - i,
    {
        proof {
            assert(wf_node(g.n(), owner as int, nv[i as int]));
            assert(wf_nodes(g.n(), owner as int, nv.take(i as int))) by {
                assert(forall|j: int| 0 <= j < i ==> nv.take(i as int)[j] == nv[j]);
            }
        }
        let ghost cur = rstate_of(out@, *stream, *registry, stack@);
        streaming_render_node(virtual_dom, owner, &nodes[i], out, stream, registry, stack);
        proof {
            lemma_srender_node(g, owner as int, nv[i as int], cur);
            assert(nv.take(i + 1).drop_last() =~= nv.take(i as int));
            assert(nv.take(i + 1).last() == nv[i as int]);
            assert(wf_nodes(g.n(), owner as int, nv.take(i + 1))) by {
                assert(forall|j: int| 0 <= j < i + 1 ==> nv.take(i + 1)[j] == nv[j]);
            }
            assert(rstate_of(out@, *stream, *registry, stack@) == spec_srender_nodes(
                g,
                owner as int,
                nv.take(i + 1),
                st0,
            ));
        }
        i = i + 1;
    }
    proof {
        assert(nv.take(n as int) =~= nv);
    }
}

pub proof fn lemma_srender_nodes(g: GraphV, owner: int, nodes: Seq<NodeV>, st: RState)
    requires
        wf_graph(g),
        0 <= owner < g.n(),
        wf_nodes(g.n(), owner, nodes),
        mounts_inv(g, st),
    ensures
        srender_grows(g, st, spec_srender_nodes(g, owner, nodes, st)),
    decreases g.n() - owner, 0int, nodes,
{
    if nodes.len() > 0 {
        assert(wf_nodes(g.n(), owner, nodes.drop_last())) by {
            assert(forall|i: int|
                0 <= i < nodes.len() - 1 ==> nodes.drop_last()[i] == nodes[i]);
        }
        lemma_srender_nodes(g, owner, nodes.drop_last(), st);
        let st1 = spec_srender_nodes(g, owner, nodes.drop_last(), st);
        assert(wf_node(g.n(), owner, nodes.last()));
        lemma_srender_node(g, owner, nodes.last(), st1);
        let st2 = spec_srender_node(g, owner, nodes.last(), st1);
        lemma_grows_trans(g, st, st1, st2);
    }
}

/// Growth facts compose across two walk steps.
pub proof fn lemma_grows_trans(g: GraphV, st0: RState, st1: RState, st2: RState)
    requires
        srender_grows(g, st0, st1),
        srender_grows(g, st1, st2),
    ensures
        srender_grows(g, st0, st2),
{
    assert forall|m: int| st0.next_mount <= m < st2.next_mount implies covers(
        st2.reg,
        st0.reg,
        m,
    ) by {
        if m < st1.next_mount {
            assert(covers(st1.reg, st0.reg, m));
            let k = choose|k: int|
                #[trigger] st1.reg.contains_key(k) && !st0.reg.contains_key(k) && (st1.reg[
                    k
                ].mount as int) == m;
            assert(st2.reg.contains_key(k) && st2.reg[k].mount == st1.reg[k].mount);
            assert(covers(st2.reg, st0.reg, m));
        } else {
            assert(covers(st2.reg, st1.reg, m));
            let k = choose|k: int|
                #[trigger] st2.reg.contains_key(k) && !st1.reg.contains_key(k) && (st2.reg[
                    k
                ].mount as int) == m;
            assert(!st0.reg.contains_key(k));
            assert(covers(st2.reg, st0.reg, m));
        }
    }
    assert forall|k: int| #[trigger]
        st2.reg.contains_key(k) && !st0.reg.contains_key(k) implies 0 <= k < g.n()
        && g.scopes[k].pending > 0 && !g.scopes[k].frozen && st0.next_mount <= (st2.reg[
        k
    ].mount as int) < st2.next_mount by {
        if st1.reg.contains_key(k) {
            assert(st0.next_mount <= (st1.reg[k].mount as int) < st1.next_mount);
            assert(st2.reg[k].mount == st1.reg[k].mount);
        }
    }
}

} // verus!

//! The component graph: scopes, rendered node trees, suspense state.
//!
//! The graph is the engine's picture of the component tree it renders: a pool
//! of scopes indexed by scope id, each holding its rendered node tree, its
//! suspense state (outstanding asynchronous work), an error slot, and the
//! serialized values the scope published for client-side hydration.

use vstd::prelude::*;

verus! {

/// One serialized value a scope published for hydration, together with the
/// diagnostics the client receives alongside it.
pub struct HydrationEntry {
    pub value: String,
    pub debug_type: String,
    pub location: String,
}

/// Ghost model of a hydration entry.
pub ghost struct EntryV {
    pub value: Seq<char>,
    pub debug_type: Seq<char>,
    pub location: Seq<char>,
}

impl View for HydrationEntry {
    type V = EntryV;

    open spec fn view(&self) -> EntryV {
        EntryV { value: self.value@, debug_type: self.debug_type@, location: self.location@ }
    }
}

/// An error held by a scope's error-accumulation context. The routing flag
/// classifies the error: a routing error at the root maps to a not-found
/// outcome, any other error to a server-error outcome.
pub struct ScopeError {
    pub message: String,
    pub routing: bool,
}

/// Ghost model of a scope error.
pub ghost struct ScopeErrorV {
    pub message: Seq<char>,
    pub routing: bool,
}

impl View for ScopeError {
    type V = ScopeErrorV;

    open spec fn view(&self) -> ScopeErrorV {
        ScopeErrorV { message: self.message@, routing: self.routing }
    }
}

/// A rendered node: the tagged-variant tree that a scope renders to.
/// A component node mounts another scope by id.
pub enum VNode {
    Text(String),
    Element { tag: String, children: Vec<VNode> },
    Fragment(Vec<VNode>),
    Component(usize),
}

/// Ghost model of a rendered node.
#[verifier::ext_equal]
pub ghost enum NodeV {
    Text(Seq<char>),
    Element { tag: Seq<char>, children: Seq<NodeV> },
    Fragment(Seq<NodeV>),
    Component(int),
}

pub open spec fn node_view(n: VNode) -> NodeV
    decreases n,
{
    match n {
        VNode::Text(t) => NodeV::Text(t@),
        VNode::Element { tag, children } => NodeV::Element {
            tag: tag@,
            children: nodes_view(children@),
        },
        VNode::Fragment(children) => NodeV::Fragment(nodes_view(children@)),
        VNode::Component(c) => NodeV::Component(c as int),
    }
}

pub open spec fn nodes_view(s: Seq<VNode>) -> Seq<NodeV>
    decreases s,
{
    if s.len() == 0 {
        Seq::empty()
    } else {
        nodes_view(s.drop_last()).push(node_view(s.last()))
    }
}

impl View for VNode {
    type V = NodeV;

    open spec fn view(&self) -> NodeV {
        node_view(*self)
    }
}

/// Facts about `nodes_view` that callers index with.
pub proof fn lemma_nodes_view(s: Seq<VNode>)
    ensures
        nodes_view(s).len() == s.len(),
        forall|i: int| 0 <= i < s.len() ==> nodes_view(s)[i] == node_view(s[i]),
    decreases s.len(),
{
    if s.len() > 0 {
        lemma_nodes_view(s.drop_last());
    }
}

/// One scope of the component graph.
///
/// While a suspense-capable scope still has outstanding asynchronous work
/// (`pending > 0`), its visible output is `fallback` (the loading state) and
/// `content` is the suspended, not-yet-visible subtree. Once `pending`
/// reaches zero the scope renders `content`. A frozen scope has been
/// streamed in its final form and is never re-rendered.
pub struct Scope {
    pub suspense: bool,
    pub pending: u64,
    pub frozen: bool,
    pub error: Option<ScopeError>,
    pub data: Vec<HydrationEntry>,
    pub fallback: VNode,
    pub content: VNode,
}

/// Ghost model of a scope.
#[verifier::ext_equal]
pub ghost struct ScopeV {
    pub suspense: bool,
    pub pending: nat,
    pub frozen: bool,
    pub error: Option<ScopeErrorV>,
    pub data: Seq<EntryV>,
    pub fallback: NodeV,
    pub content: NodeV,
}

pub open spec fn scope_view(s: Scope) -> ScopeV {
    ScopeV {
        suspense: s.suspense,
        pending: s.pending as nat,
        frozen: s.frozen,
        error: match s.error {
            Option::Some(e) => Option::Some(e@),
            Option::None => Option::None,
        },
        data: s.data@.map_values(|e: HydrationEntry| e@),
        fallback: s.fallback@,
        content: s.content@,
    }
}

impl View for Scope {
    type V = ScopeV;

    open spec fn view(&self) -> ScopeV {
        scope_view(*self)
    }
}

/// The component graph. Scope 0 is the root scope.
pub struct Graph {
    pub scopes: Vec<Scope>,
}

/// Ghost model of the graph.
#[verifier::ext_equal]
pub ghost struct GraphV {
    pub scopes: Seq<ScopeV>,
}

impl View for Graph {
    type V = GraphV;

    open spec fn view(&self) -> GraphV {
        GraphV { scopes: self.scopes@.map_values(|s: Scope| scope_view(s)) }
    }
}

impl GraphV {
    /// Number of scopes.
    pub open spec fn n(self) -> int {
        self.scopes.len() as int
    }

    /// A scope currently acts as a suspense boundary iff it carries
    /// suspense-boundary capability and has outstanding asynchronous work.
    pub open spec fn is_boundary(self, s: int) -> bool {
        self.scopes[s].suspense && self.scopes[s].pending > 0
    }

    /// The subtree a scope currently renders: the loading fallback while it
    /// is a pending suspense boundary, its real content otherwise.
    pub open spec fn current_root(self, s: int) -> NodeV {
        if self.is_boundary(s) {
            self.scopes[s].fallback
        } else {
            self.scopes[s].content
        }
    }
}

/// Every component node in `node` mounts a scope with an id strictly greater
/// than the id of the scope that rendered it, and in bounds. Scope ids are
/// allocated in tree order during the build, so mounted subtrees always live
/// at higher ids; this also grounds termination of every tree walk.
pub open spec fn wf_node(n_scopes: int, s: int, node: NodeV) -> bool
    decreases node,
{
    match node {
        NodeV::Text(_) => true,
        NodeV::Element { tag: _, children } => wf_nodes(n_scopes, s, children),
        NodeV::Fragment(children) => wf_nodes(n_scopes, s, children),
        NodeV::Component(c) => s < c < n_scopes,
    }
}

pub open spec fn wf_nodes(n_scopes: int, s: int, nodes: Seq<NodeV>) -> bool
    decreases nodes,
{
    forall|i: int| 0 <= i < nodes.len() ==> wf_node(n_scopes, s, #[trigger] nodes[i])
}

pub open spec fn wf_scope(g: GraphV, s: int) -> bool {
    &&& wf_node(g.n(), s, g.scopes[s].fallback)
    &&& wf_node(g.n(), s, g.scopes[s].content)
    &&& (g.scopes[s].frozen ==> g.scopes[s].pending == 0)
}

/// Well-formedness of the whole graph: at least the root scope exists and
/// every scope's trees are well-formed.
pub open spec fn wf_graph(g: GraphV) -> bool {
    &&& g.n() >= 1
    &&& forall|s: int| 0 <= s < g.n() ==> wf_scope(g, s)
}

/// Total outstanding asynchronous work across all scopes.
pub open spec fn total_pending_of(scopes: Seq<ScopeV>) -> nat
    decreases scopes.len(),
{
    if scopes.len() == 0 {
        0
    } else {
        total_pending_of(scopes.drop_last()) + scopes.last().pending
    }
}

pub open spec fn total_pending(g: GraphV) -> nat {
    total_pending_of(g.scopes)
}

pub proof fn lemma_total_pending_zero(scopes: Seq<ScopeV>)
    requires
        total_pending_of(scopes) == 0,
    ensures
        forall|i: int| 0 <= i < scopes.len() ==> #[trigger] scopes[i].pending == 0,
    decreases scopes.len(),
{
    if scopes.len() > 0 {
        lemma_total_pending_zero(scopes.drop_last());
        assert forall|i: int| 0 <= i < scopes.len() implies #[trigger] scopes[i].pending == 0 by {
            if i < scopes.len() - 1 {
                assert(scopes.drop_last()[i] == scopes[i]);
            }
        }
    }
}

/// One completed unit of asynchronous work in scope `e`: its outstanding
/// count decreases by one. An event for a scope with no outstanding work, or
/// out of bounds, changes nothing.
pub open spec fn apply_event(g: GraphV, e: int) -> GraphV {
    if 0 <= e < g.n() && g.scopes[e].pending > 0 {
        GraphV {
            scopes: g.scopes.update(
                e,
                ScopeV { pending: (g.scopes[e].pending - 1) as nat, ..g.scopes[e] },
            ),
        }
    } else {
        g
    }
}

/// A sequence of completion events applied in order.
pub open spec fn apply_events(g: GraphV, evs: Seq<int>) -> GraphV
    decreases evs.len(),
{
    if evs.len() == 0 {
        g
    } else {
        apply_event(apply_events(g, evs.drop_last()), evs.last())
    }
}

/// The graph with all outstanding asynchronous work completed.
pub open spec fn zero_pending(g: GraphV) -> GraphV {
    GraphV { scopes: Seq::new(g.scopes.len(), |i: int| ScopeV { pending: 0, ..g.scopes[i] }) }
}

/// `evs` resolves all outstanding work of `g`.
pub open spec fn resolves_all(g: GraphV, evs: Seq<int>) -> bool {
    total_pending(apply_events(g, evs)) == 0
}

/// Completion events only lower outstanding-work counts; every other part of
/// every scope is untouched.
pub proof fn lemma_apply_events_shape(g: GraphV, evs: Seq<int>)
    ensures
        apply_events(g, evs).scopes.len() == g.scopes.len(),
        forall|i: int|
            0 <= i < g.scopes.len() ==> #[trigger] apply_events(g, evs).scopes[i] == (ScopeV {
                pending: apply_events(g, evs).scopes[i].pending,
                ..g.scopes[i]
            }) && apply_events(g, evs).scopes[i].pending <= g.scopes[i].pending,
    decreases evs.len(),
{
    if evs.len() > 0 {
        lemma_apply_events_shape(g, evs.drop_last());
    }
}

/// Whatever order asynchronous work completes in, resolving everything
/// leaves the same graph: the one with all outstanding counts at zero.
pub proof fn lemma_resolved_graph_unique(g: GraphV, evs: Seq<int>)
    requires
        resolves_all(g, evs),
    ensures
        apply_events(g, evs) == zero_pending(g),
{
    let h = apply_events(g, evs);
    lemma_apply_events_shape(g, evs);
    lemma_total_pending_zero(h.scopes);
    assert forall|i: int| 0 <= i < g.scopes.len() implies h.scopes[i] == zero_pending(g).scopes[i] by {
        assert(h.scopes[i] == ScopeV { pending: h.scopes[i].pending, ..g.scopes[i] });
        assert(h.scopes[i].pending == 0);
    }
    assert(h.scopes =~= zero_pending(g).scopes);
    assert(h =~= zero_pending(g));
}

/// The graph with scope `e` frozen: streamed in final form, never to be
/// re-rendered.
pub open spec fn freeze_scope(g: GraphV, e: int) -> GraphV {
    if 0 <= e < g.n() {
        GraphV { scopes: g.scopes.update(e, ScopeV { frozen: true, ..g.scopes[e] }) }
    } else {
        g
    }
}

/// A completion event preserves graph well-formedness.
pub proof fn lemma_wf_apply_event(g: GraphV, e: int)
    requires
        wf_graph(g),
    ensures
        wf_graph(apply_event(g, e)),
{
    let g1 = apply_event(g, e);
    assert forall|s: int| 0 <= s < g1.n() implies wf_scope(g1, s) by {
        assert(wf_scope(g, s));
        assert(g1.scopes[s].fallback == g.scopes[s].fallback);
        assert(g1.scopes[s].content == g.scopes[s].content);
    }
}

/// Freezing a scope with no outstanding work preserves well-formedness.
pub proof fn lemma_wf_freeze(g: GraphV, e: int)
    requires
        wf_graph(g),
        0 <= e < g.n() ==> g.scopes[e].pending == 0,
    ensures
        wf_graph(freeze_scope(g, e)),
{
    let g1 = freeze_scope(g, e);
    assert forall|s: int| 0 <= s < g1.n() implies wf_scope(g1, s) by {
        assert(wf_scope(g, s));
        assert(g1.scopes[s].fallback == g.scopes[s].fallback);
        assert(g1.scopes[s].content == g.scopes[s].content);
    }
}

fn check_node(n_scopes: usize, owner: usize, node: &VNode) -> (b: bool)
    ensures
        b == wf_node(n_scopes as int, owner as int, node@),
    decreases *node,
{
    match node {
        VNode::Text(_) => true,
        VNode::Element { tag: _, children } => check_nodes(n_scopes, owner, children),
        VNode::Fragment(children) => check_nodes(n_scopes, owner, children),
        VNode::Component(c) => owner < *c && *c < n_scopes,
    }
}

fn check_nodes(n_scopes: usize, owner: usize, nodes: &Vec<VNode>) -> (b: bool)
    ensures
        b == wf_nodes(n_scopes as int, owner as int, nodes_view(nodes@)),
    decreases *nodes,
{
    proof {
        lemma_nodes_view(nodes@);
    }
    let ghost nv = nodes_view(nodes@);
    let n = nodes.len();
    let mut i: usize = 0;
    while i < n
        invariant
            i <= n,
            n == nodes.len(),
            nv == nodes_view(nodes@),
            nv.len() == nodes@.len(),
            forall|j: int| 0 <= j < nodes@.len() ==> nv[j] == node_view(nodes@[j]),
            forall|j: int| 0 <= j < i ==> wf_node(n_scopes as int, owner as int, #[trigger] nv[j]),
        decreases n - i,
    {
        if !check_node(n_scopes, owner, &nodes[i]) {
            proof {
                assert(!wf_node(n_scopes as int, owner as int, nv[i as int]));
            }
            return false;
        }
        i = i + 1;
    }
    true
}

impl Graph {
    /// Number of scopes in the graph.
    pub fn len(&self) -> (n: usize)
        ensures
            n == self@.n(),
    {
        self.scopes.len()
    }

    /// Decide well-formedness of the graph, so that unverified callers can
    /// establish it before handing the graph to the engine.
    pub fn check(&self) -> (b: bool)
        ensures
            b == wf_graph(self@),
    {
        let n = self.scopes.len();
        if n == 0 {
            return false;
        }
        let mut s: usize = 0;
        while s < n
            invariant
                s <= n,
                n == self.scopes.len(),
                n == self@.n(),
                forall|j: int| 0 <= j < s ==> wf_scope(self@, j),
            decreases n - s,
        {
            let sc = &self.scopes[s];
            proof {
                assert(self@.scopes[s as int] == scope_view(self.scopes@[s as int]));
            }
            if !check_node(n, s, &sc.fallback) {
                proof {
                    assert(self@.scopes[s as int].fallback == sc.fallback@);
                    assert(!wf_scope(self@, s as int));
                }
                return false;
            }
            if !check_node(n, s, &sc.content) {
                proof {
                    assert(self@.scopes[s as int].content == sc.content@);
                    assert(!wf_scope(self@, s as int));
                }
                return false;
            }
            if sc.frozen && sc.pending > 0 {
                proof {
                    assert(self@.scopes[s as int].frozen && self@.scopes[s as int].pending > 0);
                    assert(!wf_scope(self@, s as int));
                }
                return false;
            }
            proof {
                assert(wf_scope(self@, s as int));
            }
            s = s + 1;
        }
        true
    }
}

} // verus!

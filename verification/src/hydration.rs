//! Hydration data extraction.
//!
//! After a suspense boundary resolves, the client needs the state the server
//! computed for it. The extractor walks the boundary's subtree depth-first
//! and collects every serialized value published by the scopes it visits, in
//! a deterministic boundary-first order, so that client replay order matches
//! server order no matter in which order asynchronous work happened to
//! finish. It also records the first error held by the boundary's
//! error-accumulation context so the client can re-throw it locally.

use vstd::prelude::*;

use crate::graph::{
    apply_events, resolves_all, lemma_resolved_graph_unique, scope_view, wf_graph, wf_node,
    wf_nodes, wf_scope, EntryV, Graph, GraphV, HydrationEntry, NodeV, VNode,
};

verus! {

/// The error entry of a hydration context: the serialized first error of the
/// boundary (or the explicit absence of one), tagged with a source location
/// for diagnostics.
pub struct ErrorEntry {
    pub message: Option<String>,
    pub location: String,
}

/// Ghost model of an error entry.
pub ghost struct ErrorEntryV {
    pub message: Option<Seq<char>>,
    pub location: Seq<char>,
}

impl View for ErrorEntry {
    type V = ErrorEntryV;

    open spec fn view(&self) -> ErrorEntryV {
        ErrorEntryV {
            message: match self.message {
                Option::Some(m) => Option::Some(m@),
                Option::None => Option::None,
            },
            location: self.location@,
        }
    }
}

/// An accumulator of serialized hydration values plus at most one error
/// entry, built per suspense boundary.
pub struct HydrationContext {
    pub error: Option<ErrorEntry>,
    pub entries: Vec<HydrationEntry>,
}

/// Ghost model of a hydration context.
#[verifier::ext_equal]
pub ghost struct HCtxV {
    pub error: Option<ErrorEntryV>,
    pub entries: Seq<EntryV>,
}

impl View for HydrationContext {
    type V = HCtxV;

    open spec fn view(&self) -> HCtxV {
        HCtxV {
            error: match self.error {
                Option::Some(e) => Option::Some(e@),
                Option::None => Option::None,
            },
            entries: self.entries@.map_values(|e: HydrationEntry| e@),
        }
    }
}

/// The serialized form of a hydration context: the data blob the client
/// consumes, plus companion type-name and source-location values for
/// diagnostics. The three are always produced together.
pub struct SerializedHydrationData {
    pub data: String,
    pub debug_types: String,
    pub debug_locations: String,
}

/// The source location recorded on every error entry.
pub open spec fn spec_error_location() -> Seq<char> {
    "extract_from_suspense_boundary"@
}

/// The entries collected from scope `s`: first the values the scope itself
/// published, then — if the scope is a pending suspense boundary — its
/// suspended subtree (the client runs that work first during hydration), and
/// finally the subtree the scope currently renders.
pub open spec fn spec_take_scope(g: GraphV, s: int) -> Seq<EntryV>
    decreases g.n() - s, 1int, g.scopes[s].content,
        when 0 <= s < g.n() && wf_graph(g)
{
    g.scopes[s].data + (if g.is_boundary(s) {
        spec_take_node(g, s, g.scopes[s].content)
    } else {
        Seq::empty()
    }) + spec_take_node(g, s, g.current_root(s))
}

/// The entries collected from one rendered node of scope `owner`: a mounted
/// component contributes its scope's entries, containers recurse, leaves
/// contribute nothing.
pub open spec fn spec_take_node(g: GraphV, owner: int, node: NodeV) -> Seq<EntryV>
    decreases g.n() - owner, 0int, node,
        when 0 <= owner < g.n() && wf_graph(g) && wf_node(g.n(), owner, node)
{
    match node {
        NodeV::Text(_) => Seq::empty(),
        NodeV::Element { tag: _, children } => spec_take_nodes(g, owner, children),
        NodeV::Fragment(children) => spec_take_nodes(g, owner, children),
        NodeV::Component(c) => spec_take_scope(g, c),
    }
}

pub open spec fn spec_take_nodes(g: GraphV, owner: int, nodes: Seq<NodeV>) -> Seq<EntryV>
    decreases g.n() - owner, 0int, nodes,
        when 0 <= owner < g.n() && wf_graph(g) && wf_nodes(g.n(), owner, nodes)
{
    if nodes.len() == 0 {
        Seq::empty()
    } else {
        spec_take_nodes(g, owner, nodes.drop_last()) + spec_take_node(g, owner, nodes.last())
    }
}

/// The full extraction for the boundary rooted at `s`: its first error (or
/// recorded absence of one) and the depth-first entry sequence.
pub open spec fn spec_extract(g: GraphV, s: int) -> HCtxV {
    HCtxV {
        error: Option::Some(
            ErrorEntryV {
                message: match g.scopes[s].error {
                    Option::Some(e) => Option::Some(e.message),
                    Option::None => Option::None,
                },
                location: spec_error_location(),
            },
        ),
        entries: spec_take_scope(g, s),
    }
}

impl HydrationContext {
    /// An empty accumulator: no entries, no error entry.
    pub fn new() -> (ctx: HydrationContext)
        ensures
            ctx@ == (HCtxV { error: Option::None, entries: Seq::<EntryV>::empty() }),
    {
        let ctx = HydrationContext { error: Option::None, entries: Vec::new() };
        proof {
            assert(ctx@.entries =~= Seq::<EntryV>::empty());
        }
        ctx
    }

    /// Merge the serialized values another context published into this one,
    /// preserving first-discovered order.
    pub fn extend(&mut self, other: &Vec<HydrationEntry>)
        ensures
            final(self)@.entries == old(self)@.entries + other@.map_values(|e: HydrationEntry| e@),
            final(self)@.error == old(self)@.error,
    {
        let n = other.len();
        let mut i: usize = 0;
        while i < n
            invariant
                n == other.len(),
                i <= n,
                self@.entries == old(self)@.entries + other@.map_values(
                    |e: HydrationEntry| e@,
                ).take(i as int),
                self@.error == old(self)@.error,
            decreases n - i,
        {
            let e = &other[i];
            let entry = HydrationEntry {
                value: e.value.clone(),
                debug_type: e.debug_type.clone(),
                location: e.location.clone(),
            };
            let ghost ev = entry@;
            let ghost prev = self@.entries;
            let ghost pv = self.entries@;
            self.entries.push(entry);
            proof {
                let m = other@.map_values(|e: HydrationEntry| e@);
                assert(ev == m[i as int]);
                assert(self.entries@ == pv.push(entry));
                assert(self@.entries =~= prev.push(ev)) by {
                    assert(forall|j: int|
                        0 <= j < pv.len() ==> #[trigger] pv.push(entry)[j] == pv[j]);
                }
                assert(m.take(i + 1).drop_last() =~= m.take(i as int));
                assert(m.take(i + 1) =~= m.take(i as int).push(m[i as int]));
                assert(self@.entries =~= old(self)@.entries + m.take(i + 1));
            }
            i = i + 1;
        }
        proof {
            let m = other@.map_values(|e: HydrationEntry| e@);
            assert(m.take(n as int) =~= m);
        }
    }
}

/// Record the first error currently held by the boundary's
/// error-accumulation context — or its absence — so the client can rethrow
/// it and let it bubble locally.
pub fn serialize_errors(context: &mut HydrationContext, vdom: &Graph, scope: usize)
    requires
        scope < vdom@.n(),
    ensures
        final(context)@.entries == old(context)@.entries,
        final(context)@.error == Option::Some(
            ErrorEntryV {
                message: match vdom@.scopes[scope as int].error {
                    Option::Some(e) => Option::Some(e.message),
                    Option::None => Option::None,
                },
                location: spec_error_location(),
            },
        ),
{
    let message: Option<String> = match &vdom.scopes[scope].error {
        Option::Some(e) => Option::Some(e.message.clone()),
        Option::None => Option::None,
    };
    context.error = Option::Some(
        ErrorEntry { message, location: String::from_str("extract_from_suspense_boundary") },
    );
}

/// Collect the values scope `scope` and its descendants published, in
/// depth-first order, suspended subtrees first.
pub fn take_from_scope(context: &mut HydrationContext, vdom: &Graph, scope: usize)
    requires
        wf_graph(vdom@),
        scope < vdom@.n(),
    ensures
        final(context)@.entries == old(context)@.entries + spec_take_scope(vdom@, scope as int),
        final(context)@.error == old(context)@.error,
    decreases vdom@.n() - scope, 1int, vdom.scopes@[scope as int].content,
{
    let sc = &vdom.scopes[scope];
    proof {
        assert(wf_scope(vdom@, scope as int));
        assert(vdom@.scopes[scope as int] == scope_view(vdom.scopes@[scope as int]));
        assert(vdom@.scopes[scope as int].content == sc.content@);
        assert(vdom@.scopes[scope as int].fallback == sc.fallback@);
        assert(vdom@.scopes[scope as int].data == sc.data@.map_values(|e: HydrationEntry| e@));
        assert(vdom@.is_boundary(scope as int) == (sc.suspense && sc.pending > 0));
    }
    context.extend(&sc.data);
    if sc.suspense && sc.pending > 0 {
        // A pending boundary: its suspended, not-yet-visible subtree comes
        // first, because the client will execute that work first.
        take_from_vnode(context, vdom, scope, &sc.content);
        take_from_vnode(context, vdom, scope, &sc.fallback);
        proof {
            assert(vdom@.current_root(scope as int) == vdom@.scopes[scope as int].fallback);
        }
    } else {
        take_from_vnode(context, vdom, scope, &sc.content);
        proof {
            assert(spec_take_scope(vdom@, scope as int) == vdom@.scopes[scope as int].data
                + Seq::<EntryV>::empty() + spec_take_node(
                vdom@,
                scope as int,
                vdom@.scopes[scope as int].content,
            ));
            assert(context@.entries =~= old(context)@.entries + spec_take_scope(
                vdom@,
                scope as int,
            ));
        }
    }
}

/// Collect from one rendered node: recurse into mounted component scopes and
/// into the members of fragments and elements.
pub fn take_from_vnode(context: &mut HydrationContext, vdom: &Graph, owner: usize, vnode: &VNode)
    requires
        wf_graph(vdom@),
        owner < vdom@.n(),
        wf_node(vdom@.n(), owner as int, vnode@),
    ensures
        final(context)@.entries == old(context)@.entries + spec_take_node(
            vdom@,
            owner as int,
            vnode@,
        ),
        final(context)@.error == old(context)@.error,
    decreases vdom@.n() - owner, 0int, *vnode,
{
    match vnode {
        VNode::Text(_) => {
            proof {
                assert(context@.entries =~= old(context)@.entries + spec_take_node(
                    vdom@,
                    owner as int,
                    vnode@,
                ));
            }
        },
        VNode::Element { tag: _, children } => {
            take_from_vnode_list(context, vdom, owner, children);
        },
        VNode::Fragment(children) => {
            take_from_vnode_list(context, vdom, owner, children);
        },
        VNode::Component(c) => {
            take_from_scope(context, vdom, *c);
        },
    }
}

/// Collect from each member node in order.
fn take_from_vnode_list(
    context: &mut HydrationContext,
    vdom: &Graph,
    owner: usize,
    nodes: &Vec<VNode>,
)
    requires
        wf_graph(vdom@),
        owner < vdom@.n(),
        wf_nodes(vdom@.n(), owner as int, crate::graph::nodes_view(nodes@)),
    ensures
        final(context)@.entries == old(context)@.entries + spec_take_nodes(
            vdom@,
            owner as int,
            crate::graph::nodes_view(nodes@),
        ),
        final(context)@.error == old(context)@.error,
    decreases vdom@.n() - owner, 0int, *nodes,
{
    proof {
        crate::graph::lemma_nodes_view(nodes@);
    }
    let n = nodes.len();
    let mut i: usize = 0;
    while i < n
        invariant
            wf_graph(vdom@),
            owner < vdom@.n(),
            wf_nodes(vdom@.n(), owner as int, crate::graph::nodes_view(nodes@)),
            crate::graph::nodes_view(nodes@).len() == nodes@.len(),
            forall|j: int|
                0 <= j < nodes@.len() ==> crate::graph::nodes_view(nodes@)[j]
                    == crate::graph::node_view(nodes@[j]),
            n == nodes.len(),
            i <= n,
            context@.entries == old(context)@.entries + spec_take_nodes(
                vdom@,
                owner as int,
                crate::graph::nodes_view(nodes@).take(i as int),
            ),
            context@.error == old(context)@.error,
        decreases n - i,
    {
        let ghost nv = crate::graph::nodes_view(nodes@);
        proof {
            assert(wf_node(vdom@.n(), owner as int, nv[i as int]));
        }
        take_from_vnode(context, vdom, owner, &nodes[i]);
        proof {
            assert(nv.take(i + 1).drop_last() =~= nv.take(i as int));
            assert(nv.take(i + 1).last() == nv[i as int]);
            assert(wf_nodes(vdom@.n(), owner as int, nv.take(i + 1))) by {
                assert(forall|j: int|
                    0 <= j < i + 1 ==> nv.take(i + 1)[j] == nv[j]);
            }
            assert(wf_nodes(vdom@.n(), owner as int, nv.take(i as int))) by {
                assert(forall|j: int| 0 <= j < i ==> nv.take(i as int)[j] == nv[j]);
            }
            assert(spec_take_nodes(vdom@, owner as int, nv.take(i + 1)) == spec_take_nodes(
                vdom@,
                owner as int,
                nv.take(i as int),
            ) + spec_take_node(vdom@, owner as int, nv[i as int]));
        }
        i = i + 1;
    }
    proof {
        assert(crate::graph::nodes_view(nodes@).take(n as int) =~= crate::graph::nodes_view(
            nodes@,
        ));
    }
}

/// Walk the suspense boundary rooted at `scope` depth-first and extract the
/// serialized state and first error for client-side hydration. Depth-first
/// order is used, not the order the underlying futures completed in, because
/// that completion order is nondeterministic on the server.
pub fn extract_from_suspense_boundary(vdom: &Graph, scope: usize) -> (data: HydrationContext)
    requires
        wf_graph(vdom@),
        scope < vdom@.n(),
    ensures
        data@ == spec_extract(vdom@, scope as int),
{
    let mut data = HydrationContext::new();
    serialize_errors(&mut data, vdom, scope);
    take_from_scope(&mut data, vdom, scope);
    proof {
        assert(data@.entries =~= spec_take_scope(vdom@, scope as int));
        assert(data@ =~= spec_extract(vdom@, scope as int));
    }
    data
}

/// The serialized error slot of the data blob: the explicit absence of an
/// error entry, the recorded absence of an error, or the error message.
pub open spec fn spec_err_value(e: Option<ErrorEntryV>) -> Seq<char> {
    match e {
        Option::None => "-"@,
        Option::Some(r) => match r.message {
            Option::None => "none"@,
            Option::Some(m) => "err:"@ + m,
        },
    }
}

pub open spec fn spec_join_values(entries: Seq<EntryV>) -> Seq<char>
    decreases entries.len(),
{
    if entries.len() == 0 {
        Seq::empty()
    } else {
        spec_join_values(entries.drop_last()) + ";"@ + entries.last().value
    }
}

pub open spec fn spec_join_types(entries: Seq<EntryV>) -> Seq<char>
    decreases entries.len(),
{
    if entries.len() == 0 {
        Seq::empty()
    } else {
        spec_join_types(entries.drop_last()) + ";"@ + entries.last().debug_type
    }
}

pub open spec fn spec_join_locations(entries: Seq<EntryV>) -> Seq<char>
    decreases entries.len(),
{
    if entries.len() == 0 {
        Seq::empty()
    } else {
        spec_join_locations(entries.drop_last()) + ";"@ + entries.last().location
    }
}

/// The client-consumed data blob of a serialized context.
pub open spec fn spec_serialized_data(c: HCtxV) -> Seq<char> {
    spec_err_value(c.error) + spec_join_values(c.entries)
}

/// The companion type-name value.
pub open spec fn spec_serialized_types(c: HCtxV) -> Seq<char> {
    "["@ + spec_join_types(c.entries) + "]"@
}

/// The companion source-location value.
pub open spec fn spec_serialized_locations(c: HCtxV) -> Seq<char> {
    "["@ + (match c.error {
        Option::Some(r) => r.location,
        Option::None => Seq::empty(),
    }) + spec_join_locations(c.entries) + "]"@
}

impl HydrationContext {
    /// Serialize the accumulated state into the blob sent to the client,
    /// together with the type-name and source-location diagnostics. The
    /// three values are always produced together.
    pub fn serialized(&self) -> (r: SerializedHydrationData)
        ensures
            r.data@ == spec_serialized_data(self@),
            r.debug_types@ == spec_serialized_types(self@),
            r.debug_locations@ == spec_serialized_locations(self@),
    {
        let mut data = match &self.error {
            Option::Some(r) => match &r.message {
                Option::Some(m) => {
                    let mut d = String::from_str("err:");
                    d.append(m.as_str());
                    d
                },
                Option::None => String::from_str("none"),
            },
            Option::None => String::from_str("-"),
        };
        let mut types = String::from_str("[");
        let mut locations = String::from_str("[");
        match &self.error {
            Option::Some(r) => locations.append(r.location.as_str()),
            Option::None => (),
        }
        let ghost m = self.entries@.map_values(|e: HydrationEntry| e@);
        let n = self.entries.len();
        let mut i: usize = 0;
        while i < n
            invariant
                n == self.entries.len(),
                i <= n,
                m == self.entries@.map_values(|e: HydrationEntry| e@),
                data@ == spec_err_value(self@.error) + spec_join_values(m.take(i as int)),
                types@ == "["@ + spec_join_types(m.take(i as int)),
                locations@ == "["@ + (match self@.error {
                    Option::Some(r) => r.location,
                    Option::None => Seq::<char>::empty(),
                }) + spec_join_locations(m.take(i as int)),
            decreases n - i,
        {
            let e = &self.entries[i];
            data.append(";");
            data.append(e.value.as_str());
            types.append(";");
            types.append(e.debug_type.as_str());
            locations.append(";");
            locations.append(e.location.as_str());
            proof {
                assert(m.take(i + 1).drop_last() =~= m.take(i as int));
                assert(m.take(i + 1).last() == m[i as int]);
                assert(data@ =~= spec_err_value(self@.error) + spec_join_values(m.take(i + 1)));
                assert(types@ =~= "["@ + spec_join_types(m.take(i + 1)));
                assert(locations@ =~= "["@ + (match self@.error {
                    Option::Some(r) => r.location,
                    Option::None => Seq::<char>::empty(),
                }) + spec_join_locations(m.take(i + 1)));
            }
            i = i + 1;
        }
        types.append("]");
        locations.append("]");
        proof {
            assert(m.take(n as int) =~= m);
            assert(data@ =~= spec_serialized_data(self@));
            assert(types@ =~= spec_serialized_types(self@));
            assert(locations@ =~= spec_serialized_locations(self@));
        }
        SerializedHydrationData { data, debug_types: types, debug_locations: locations }
    }
}

/// Extract the hydration state for the boundary rooted at `scope` and
/// serialize it for the client.
pub fn serialize_server_data(virtual_dom: &Graph, scope: usize) -> (r: SerializedHydrationData)
    requires
        wf_graph(virtual_dom@),
        scope < virtual_dom@.n(),
    ensures
        r.data@ == spec_serialized_data(spec_extract(virtual_dom@, scope as int)),
        r.debug_types@ == spec_serialized_types(spec_extract(virtual_dom@, scope as int)),
        r.debug_locations@ == spec_serialized_locations(
            spec_extract(virtual_dom@, scope as int),
        ),
{
    let html_data = extract_from_suspense_boundary(virtual_dom, scope);
    html_data.serialized()
}

/// Hydration order determinism: once all asynchronous work has resolved, the
/// extracted entry sequence for any scope is the same whatever order the
/// work completed in — in particular for two completion orders that are
/// reversals of each other.
pub proof fn lemma_hydration_order_deterministic(g: GraphV, o1: Seq<int>, o2: Seq<int>, s: int)
    requires
        wf_graph(g),
        resolves_all(g, o1),
        resolves_all(g, o2),
        0 <= s < g.n(),
    ensures
        spec_extract(apply_events(g, o1), s) == spec_extract(apply_events(g, o2), s),
{
    lemma_resolved_graph_unique(g, o1);
    lemma_resolved_graph_unique(g, o2);
}

} // verus!

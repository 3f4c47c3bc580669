//! The renderer pool and cache gateway, and the render orchestrator.
//!
//! `SSRState::render` is the engine's sole entry point. It first consults
//! the incremental cache: a fresh entry is answered as a single chunk with
//! its stored freshness and no graph work at all. On a miss it borrows a
//! renderer from the pool, classifies any root error — routing errors map
//! to a not-found outcome, any other to a server error, both before any
//! output — and otherwise drives one render session: the initial frame as
//! the first chunk, one replacement chunk per resolved suspense boundary,
//! the trailer, and, when incremental rendering is configured, a cache
//! write of the fully resolved page. A cancelled session produces exactly
//! a prefix of the chunks, writes no cache entry, and returns no renderer
//! to the pool.

use vstd::prelude::*;

use crate::cache::{
    spec_age, spec_cache_lookup, spec_fresh, CacheEntry, CachedRender, IncrementalRenderer,
    IncrementalRendererConfig, IncrementalRendererError, RenderFreshness,
};
use crate::graph::{
    apply_event, apply_events, freeze_scope, lemma_wf_apply_event, scope_view, wf_graph, Graph,
    GraphV, ScopeV,
};
use crate::hydration::serialize_server_data;
use crate::registry::Registry;
use crate::render::{
    charged_set, mounts_inv, pre_renderer, streaming_render_scope, Renderer, RState,
};
use crate::session::{
    lemma_start_inv, lemma_step_inv, lemma_step_mid, session_inv, spec_cached_body, spec_run,
    spec_start, spec_step,
};
use crate::shell::{FullstackHTMLTemplate, ServeConfig, ServerDocument, StreamingMode};
use crate::streaming::{spec_render_chunks, StreamingRenderer};

verus! {

/// Errors that can occur during server-side rendering before the initial
/// chunk is sent down.
pub enum SSRError {
    /// An error from the incremental renderer: a server-error outcome.
    Incremental(IncrementalRendererError),
    /// A routing failure at the root: a not-found outcome.
    Routing(String),
}

/// A shared pool of renderers, with the optional incremental cache.
pub struct SsrRendererPool {
    pub renderers: Vec<Renderer>,
    pub incremental_cache: Option<IncrementalRenderer>,
}

/// The stored body and freshness a cache lookup would answer, if any.
pub open spec fn spec_pool_hit(pool: SsrRendererPool, route: Seq<char>, now: u64) -> Option<
    (Seq<char>, RenderFreshness),
> {
    match pool.incremental_cache {
        Option::Some(c) => match spec_cache_lookup(c.entries@, route) {
            Option::Some((body, ts)) => if spec_fresh(spec_age(ts, now), c.invalidate_after_secs) {
                Option::Some(
                    (
                        body,
                        RenderFreshness {
                            age_secs: spec_age(ts, now),
                            max_age_secs: c.invalidate_after_secs,
                        },
                    ),
                )
            } else {
                Option::None
            },
            Option::None => Option::None,
        },
        Option::None => Option::None,
    }
}

/// The cache contents of a pool, empty when no cache is configured.
pub open spec fn pool_cache_entries(pool: SsrRendererPool) -> Seq<CacheEntry> {
    match pool.incremental_cache {
        Option::Some(c) => c.entries@,
        Option::None => Seq::empty(),
    }
}

/// The events a session actually answers: none in single-shot mode (they
/// are all awaited before the first chunk), and at most `cancel` of them
/// when the consumer drops the stream.
pub open spec fn spec_session_events(
    disabled: bool,
    evs: Seq<int>,
    cancel: Option<usize>,
) -> Seq<int> {
    if disabled {
        Seq::empty()
    } else {
        match cancel {
            Option::None => evs,
            Option::Some(c) => if (c as int) < evs.len() {
                evs.take(c as int)
            } else {
                evs
            },
        }
    }
}

/// The graph a session starts from: in single-shot mode all asynchronous
/// work completes before anything is rendered.
pub open spec fn spec_session_graph(disabled: bool, g: GraphV, evs: Seq<int>) -> GraphV {
    if disabled {
        apply_events(g, evs)
    } else {
        g
    }
}

/// Apply one completed unit of asynchronous work to the graph.
pub fn apply_completion(virtual_dom: &mut Graph, e: usize)
    ensures
        final(virtual_dom)@ == apply_event(old(virtual_dom)@, e as int),
{
    let ghost gprev = virtual_dom@;
    if e < virtual_dom.scopes.len() {
        let p = virtual_dom.scopes[e].pending;
        if p > 0 {
            virtual_dom.scopes[e].pending = p - 1;
            proof {
                assert(virtual_dom@.scopes =~= apply_event(gprev, e as int).scopes) by {
                    assert forall|j: int|
                        0 <= j < gprev.scopes.len() implies virtual_dom@.scopes[j] == apply_event(
                        gprev,
                        e as int,
                    ).scopes[j] by {
                        if j == e {
                            assert(virtual_dom@.scopes[j] == scope_view(
                                virtual_dom.scopes@[e as int],
                            ));
                        }
                    }
                }
                assert(virtual_dom@ =~= apply_event(gprev, e as int));
            }
        }
    }
}

/// The full contract of one `render_to` call, relating the pool before and
/// after, the inputs, and the result.
pub open spec fn render_post(
    pool_old: SsrRendererPool,
    pool_new: SsrRendererPool,
    cfg: crate::shell::ServeConfigV,
    route: Seq<char>,
    g0: GraphV,
    doc: crate::shell::DocV,
    order: Seq<usize>,
    cancel_after: Option<usize>,
    now: u64,
    r: Result<(RenderFreshness, Vec<String>), SSRError>,
) -> bool {
    let evs = order.map_values(|x: usize| x as int);
    let disabled = cfg.streaming_mode == StreamingMode::Disabled;
    let gs = spec_session_graph(disabled, g0, evs);
    let sevs = spec_session_events(disabled, evs, cancel_after);
    let stf = spec_run(spec_start(cfg.index, doc, gs), sevs);
    match r {
        Result::Err(SSRError::Routing(m)) => spec_pool_hit(pool_old, route, now) is None
            && match g0.scopes[0].error {
            Option::Some(e) => e.routing && m@ == e.message,
            Option::None => false,
        },
        Result::Err(SSRError::Incremental(err)) => spec_pool_hit(pool_old, route, now) is None
            && match g0.scopes[0].error {
            Option::Some(e) => !e.routing && err.spec_message() == e.message,
            Option::None => false,
        },
        Result::Ok((fresh, chunks)) => match spec_pool_hit(pool_old, route, now) {
            Option::Some((body, f)) => chunks@.map_values(|c: String| c@) == seq![body] && fresh
                == f && pool_cache_entries(pool_new) == pool_cache_entries(pool_old),
            Option::None => g0.scopes[0].error is None && fresh == (RenderFreshness {
                age_secs: 0,
                max_age_secs: Option::None,
            }) && (match cancel_after {
                Option::Some(_) => chunks@.map_values(|c: String| c@) == stf.chunks
                    && pool_cache_entries(pool_new) == pool_cache_entries(pool_old),
                Option::None => chunks@.map_values(|c: String| c@) == spec_render_chunks(
                    Seq::empty(),
                    stf.chunks,
                    cfg.index.after_closing_body_tag,
                ) && (match pool_old.incremental_cache {
                    Option::Some(_) => pool_new.incremental_cache is Some && spec_cache_lookup(
                        pool_cache_entries(pool_new),
                        route,
                    ) == Option::Some((spec_cached_body(cfg.index, doc, stf.graph), now)) && (
                    forall|other: Seq<char>|
                        other != route ==> spec_cache_lookup(pool_cache_entries(pool_new), other)
                            == spec_cache_lookup(pool_cache_entries(pool_old), other)),
                    Option::None => pool_new.incremental_cache is None,
                }),
            }),
        },
    }
}

impl SsrRendererPool {
    /// A pool of `initial_size` pre-configured renderers, with the cache
    /// the configuration asks for.
    pub fn new(initial_size: usize, incremental: Option<IncrementalRendererConfig>) -> (r:
        SsrRendererPool)
        ensures
            r.renderers@.len() == initial_size,
            match incremental {
                Option::Some(c) => match r.incremental_cache {
                    Option::Some(cache) => cache.entries@.len() == 0
                        && cache.invalidate_after_secs == c.invalidate_after_secs,
                    Option::None => false,
                },
                Option::None => r.incremental_cache is None,
            },
    {
        let mut renderers: Vec<Renderer> = Vec::new();
        let mut i: usize = 0;
        while i < initial_size
            invariant
                i <= initial_size,
                renderers@.len() == i,
            decreases initial_size - i,
        {
            renderers.push(pre_renderer());
            i = i + 1;
        }
        let incremental_cache = match incremental {
            Option::Some(c) => Option::Some(c.build()),
            Option::None => Option::None,
        };
        SsrRendererPool { renderers, incremental_cache }
    }

    /// Drive one render session for `route` over `virtual_dom`, answering
    /// the completion events of `order` in readiness order.
    ///
    /// A fresh cache entry is answered as the sole chunk with its stored
    /// freshness, before any graph work. Otherwise a root error fails the
    /// session before any output — as a routing failure or a rendering
    /// failure. Otherwise the returned chunks are exactly those of the
    /// session machine: the initial frame, one replacement chunk per
    /// resolved boundary and the trailer; with incremental rendering
    /// configured, the fully resolved page is cached under the route. A
    /// session cancelled after `cancel_after` resolution events produces
    /// exactly the machine's truncated chunks, performs no cache write and
    /// returns no renderer to the pool.
    pub fn render_to(
        &mut self,
        cfg: &ServeConfig,
        route: String,
        virtual_dom: Graph,
        document: &ServerDocument,
        order: &Vec<usize>,
        cancel_after: Option<usize>,
        now: u64,
    ) -> (r: Result<(RenderFreshness, Vec<String>), SSRError>)
        requires
            wf_graph(virtual_dom@),
        ensures
            render_post(
                *old(self),
                *final(self),
                cfg@,
                route@,
                virtual_dom@,
                document@,
                order@,
                cancel_after,
                now,
                r,
            ),
    {
        let ghost g0 = virtual_dom@;
        let ghost evs = order@.map_values(|x: usize| x as int);
        // the synchronous fast path: a fresh cached page
        match self.check_cached_route(&route, now) {
            Option::Some(cached) => {
                let mut chunks: Vec<String> = Vec::new();
                let ghost body = cached.response@;
                let freshness = cached.freshness;
                chunks.push(cached.response);
                proof {
                    assert(chunks@.map_values(|c: String| c@) =~= seq![body]);
                }
                return Result::Ok((freshness, chunks));
            },
            Option::None => {},
        }
        // borrow a renderer, or make one if the pool ran dry
        let renderer = match self.renderers.pop() {
            Option::Some(r) => r,
            Option::None => pre_renderer(),
        };
        let mut virtual_dom = virtual_dom;
        let disabled = cfg.streaming_mode == StreamingMode::Disabled;
        if disabled {
            // single-shot mode: all asynchronous work completes before any
            // output is produced
            let total0 = order.len();
            let mut i: usize = 0;
            while i < total0
                invariant
                    i <= total0,
                    total0 == order@.len(),
                    evs == order@.map_values(|x: usize| x as int),
                    virtual_dom@ == apply_events(g0, evs.take(i as int)),
                    wf_graph(virtual_dom@),
                decreases total0 - i,
            {
                let ghost gprev = virtual_dom@;
                apply_completion(&mut virtual_dom, order[i]);
                proof {
                    assert(evs.take(i + 1).drop_last() =~= evs.take(i as int));
                    assert(evs.take(i + 1).last() == evs[i as int]);
                    lemma_wf_apply_event(gprev, evs[i as int]);
                }
                i = i + 1;
            }
            proof {
                assert(evs.take(order@.len() as int) =~= evs);
            }
        }
        let ghost gs = virtual_dom@;
        proof {
            assert(gs == spec_session_graph(disabled, g0, evs));
            if disabled {
                crate::graph::lemma_apply_events_shape(g0, evs);
                assert(gs.scopes[0] == ScopeV { pending: gs.scopes[0].pending, ..g0.scopes[0] });
            }
            assert(gs.scopes[0].error == g0.scopes[0].error);
            assert(virtual_dom@.scopes[0] == scope_view(virtual_dom.scopes@[0]));
        }
        // classify any root error before producing output: routing failures
        // map to a not-found outcome, anything else to a server error
        match &virtual_dom.scopes[0].error {
            Option::Some(err) => {
                if err.routing {
                    return Result::Err(SSRError::Routing(err.message.clone()));
                } else {
                    return Result::Err(
                        SSRError::Incremental(
                            IncrementalRendererError::Other(err.message.clone()),
                        ),
                    );
                }
            },
            Option::None => {},
        }
        let wrapper = FullstackHTMLTemplate::new(cfg);
        let mut pre_body = String::new();
        wrapper.render_head(&mut pre_body, document);
        let mut stream = StreamingRenderer::new(pre_body);
        let mut registry = Registry::new(virtual_dom.scopes.len());
        let mut stack: Vec<usize> = Vec::new();
        let mut initial_frame = String::new();
        let ghost st0 = spec_start(cfg@.index, document@, gs);
        let ghost rst0 = RState {
            out: Seq::empty(),
            next_mount: 0,
            reg: Map::empty(),
            stack: Seq::empty(),
            capturing: Set::empty(),
        };
        proof {
            assert(crate::render::rstate_of(initial_frame@, stream, registry, stack@) =~= rst0)
                by {
                assert(stack@.map_values(|x: usize| x as int) =~= Seq::<int>::empty());
            }
            assert(mounts_inv(gs, rst0)) by {
                let all = vstd::set_lib::set_int_range(0, gs.n());
                vstd::set_lib::lemma_int_range(0, gs.n());
                assert(charged_set(gs, rst0).subset_of(all));
                vstd::set_lib::lemma_len_subset(charged_set(gs, rst0), all);
            }
        }
        streaming_render_scope(
            &virtual_dom,
            0,
            &mut initial_frame,
            &mut stream,
            &mut registry,
            &mut stack,
        );
        wrapper.render_after_main(&mut initial_frame, &virtual_dom);
        stream.render(initial_frame);
        proof {
            let rst = crate::render::spec_srender_scope(gs, 0, rst0);
            assert(stream.chunks@.map_values(|c: String| c@) =~= st0.chunks);
            assert(stream.next_mount as nat == st0.next_mount);
            assert(registry.reg_map() == st0.reg);
            assert(registry.cap_set() == st0.capturing);
            lemma_start_inv(cfg@.index, document@, gs);
            assert(spec_run(st0, evs.take(0)) == st0) by {
                assert(evs.take(0) =~= Seq::<int>::empty());
            }
        }
        let total = order.len();
        let limit: usize = if disabled {
            0
        } else {
            match cancel_after {
                Option::Some(c) => if c < total {
                    c
                } else {
                    total
                },
                Option::None => total,
            }
        };
        let ghost sevs = spec_session_events(disabled, evs, cancel_after);
        proof {
            assert(sevs =~= evs.take(limit as int)) by {
                if disabled {
                    assert(evs.take(0) =~= Seq::<int>::empty());
                } else {
                    match cancel_after {
                        Option::Some(c) => {
                            if (c as int) >= evs.len() {
                                assert(evs.take(limit as int) =~= evs);
                            }
                        },
                        Option::None => {
                            assert(evs.take(limit as int) =~= evs);
                        },
                    }
                }
            }
        }
        let mut i: usize = 0;
        while i < limit
            invariant
                i <= limit,
                limit <= total,
                total == order@.len(),
                evs == order@.map_values(|x: usize| x as int),
                st0 == spec_start(cfg@.index, document@, gs),
                session_inv(spec_run(st0, evs.take(i as int))),
                virtual_dom@ == spec_run(st0, evs.take(i as int)).graph,
                stream.chunks@.map_values(|c: String| c@) == spec_run(
                    st0,
                    evs.take(i as int),
                ).chunks,
                stream.next_mount as nat == spec_run(st0, evs.take(i as int)).next_mount,
                registry.reg_map() == spec_run(st0, evs.take(i as int)).reg,
                registry.cap_set() == spec_run(st0, evs.take(i as int)).capturing,
                stream.pending@ == Seq::<char>::empty(),
                !stream.closed,
                registry.wf(gs.n()),
                virtual_dom@.n() == gs.n(),
                stack@.len() == 0,
            decreases limit - i,
        {
            let ghost stprev = spec_run(st0, evs.take(i as int));
            let ghost gprev = virtual_dom@;
            let e = order[i];
            let n = virtual_dom.scopes.len();
            if e < n {
                let p = virtual_dom.scopes[e].pending;
                proof {
                    assert(gprev.scopes[e as int] == scope_view(virtual_dom.scopes@[e as int]));
                }
                if p > 0 {
                    // one unit of asynchronous work completed in scope e
                    virtual_dom.scopes[e].pending = p - 1;
                    proof {
                        assert(virtual_dom@.scopes =~= apply_event(gprev, e as int).scopes) by {
                            assert forall|j: int|
                                0 <= j < gprev.scopes.len() implies virtual_dom@.scopes[j]
                                == apply_event(gprev, e as int).scopes[j] by {
                                if j == e {
                                    assert(virtual_dom@.scopes[j] == scope_view(
                                        virtual_dom.scopes@[e as int],
                                    ));
                                }
                            }
                        }
                        assert(virtual_dom@ =~= apply_event(gprev, e as int));
                    }
                    if p == 1 {
                        // the scope may be a registered suspense boundary
                        // that just fully resolved
                        match registry.take(e) {
                            Option::Some(b) => {
                                proof {
                                    lemma_step_mid(stprev, e as int);
                                }
                                let ghost g1 = virtual_dom@;
                                // freeze first: the boundary is about to be
                                // streamed in final form and must never be
                                // re-rendered, whatever happens inside later
                                virtual_dom.scopes[e].frozen = true;
                                proof {
                                    assert(virtual_dom@.scopes =~= freeze_scope(
                                        g1,
                                        e as int,
                                    ).scopes) by {
                                        assert forall|j: int|
                                            0 <= j < g1.scopes.len() implies virtual_dom@.scopes[j]
                                            == freeze_scope(g1, e as int).scopes[j] by {
                                            if j == e {
                                                assert(virtual_dom@.scopes[j] == scope_view(
                                                    virtual_dom.scopes@[e as int],
                                                ));
                                            }
                                        }
                                    }
                                    assert(virtual_dom@ =~= freeze_scope(g1, e as int));
                                }
                                let ghost g2 = virtual_dom@;
                                let ghost rstmid = RState {
                                    out: Seq::empty(),
                                    next_mount: stprev.next_mount,
                                    reg: stprev.reg.remove(e as int),
                                    stack: Seq::empty(),
                                    capturing: stprev.capturing,
                                };
                                // the resolved data the client needs to
                                // hydrate the boundary
                                let data = serialize_server_data(&virtual_dom, e);
                                let mut markup = String::new();
                                proof {
                                    assert(crate::render::rstate_of(
                                        markup@,
                                        stream,
                                        registry,
                                        stack@,
                                    ) =~= rstmid) by {
                                        assert(stack@.map_values(|x: usize| x as int)
                                            =~= Seq::<int>::empty());
                                    }
                                }
                                streaming_render_scope(
                                    &virtual_dom,
                                    e,
                                    &mut markup,
                                    &mut stream,
                                    &mut registry,
                                    &mut stack,
                                );
                                let ghost rst = crate::render::spec_srender_scope(
                                    g2,
                                    e as int,
                                    rstmid,
                                );
                                let mut chunk = String::new();
                                stream.replace_placeholder(b.mount, &markup, &data, &mut chunk);
                                stream.render(chunk);
                                proof {
                                    reveal_strlit("<div id=\"ds-r-");
                                }
                                // every child boundary recorded under the
                                // resolved one starts capturing errors: its
                                // ancestor can never be re-rendered, so
                                // errors must surface in its own payload
                                let cn = b.children.len();
                                let ghost kids = b@.children;
                                let mut j: usize = 0;
                                while j < cn
                                    invariant
                                        j <= cn,
                                        cn == b.children@.len(),
                                        kids == b@.children,
                                        kids.len() == cn,
                                        forall|jj: int|
                                            0 <= jj < cn ==> kids[jj] == (#[trigger] b.children@[
                                                jj
                                            ] as int),
                                        forall|jj: int| 0 <= jj < cn ==> 0 <= #[trigger] kids[jj]
                                            < gs.n(),
                                        registry.wf(gs.n()),
                                        registry.reg_map() == rst.reg,
                                        registry.cap_set() == rst.capturing.union(
                                            kids.take(j as int).to_set(),
                                        ),
                                    decreases cn - j,
                                {
                                    registry.start_capturing(b.children[j]);
                                    proof {
                                        assert(kids.take(j + 1) =~= kids.take(j as int).push(
                                            kids[j as int],
                                        ));
                                        assert(kids.take(j + 1).to_set() =~= kids.take(
                                            j as int,
                                        ).to_set().insert(kids[j as int])) by {
                                            let a = kids.take(j as int);
                                            let x = kids[j as int];
                                            assert forall|y: int|
                                                #[trigger] a.push(x).contains(y) implies a.contains(
                                                y,
                                            ) || y == x by {
                                                let i2 = choose|i2: int|
                                                    0 <= i2 < a.push(x).len() && a.push(x)[i2]
                                                        == y;
                                                if i2 < a.len() {
                                                    assert(a[i2] == y);
                                                }
                                            }
                                            assert forall|y: int|
                                                a.contains(y) || y == x implies #[trigger] a.push(
                                                x,
                                            ).contains(y) by {
                                                if a.contains(y) {
                                                    let i2 = choose|i2: int|
                                                        0 <= i2 < a.len() && a[i2] == y;
                                                    assert(a.push(x)[i2] == y);
                                                } else {
                                                    assert(a.push(x)[a.len() as int] == y);
                                                }
                                            }
                                            assert(kids.take(j + 1) =~= a.push(x));
                                        }
                                        assert(registry.cap_set() =~= rst.capturing.union(
                                            kids.take(j + 1).to_set(),
                                        ));
                                    }
                                    j = j + 1;
                                }
                                proof {
                                    assert(kids.take(cn as int) =~= kids);
                                    assert(registry.cap_set() =~= rst.capturing.union(
                                        kids.to_set(),
                                    ));
                                }
                            },
                            Option::None => {},
                        }
                    }
                }
            }
            proof {
                assert(evs.take(i + 1).drop_last() =~= evs.take(i as int));
                assert(evs.take(i + 1).last() == e as int);
                lemma_step_inv(stprev, e as int);
                let stnext = spec_step(stprev, e as int);
                assert(virtual_dom@ == stnext.graph);
                assert(stream.chunks@.map_values(|c: String| c@) =~= stnext.chunks);
                assert(stream.next_mount as nat == stnext.next_mount);
                assert(registry.reg_map() == stnext.reg);
                assert(registry.cap_set() =~= stnext.capturing);
                assert(spec_run(st0, evs.take(i + 1)) == stnext);
            }
            i = i + 1;
        }
        let ghost stf = spec_run(st0, sevs);
        proof {
            assert(evs.take(limit as int) =~= sevs);
            assert(stf == spec_run(st0, evs.take(limit as int)));
        }
        match cancel_after {
            Option::Some(_) => {
                // the consumer dropped the stream: no further chunk is
                // produced, no cache write happens, and the borrowed
                // renderer is lost with the aborted session
                return Result::Ok((RenderFreshness::now(Option::None), stream.chunks));
            },
            Option::None => {},
        }
        // the trailer after the body closes the normal stream
        let mut post_streaming = String::new();
        wrapper.render_after_body(&mut post_streaming);
        // with incremental rendering configured, re-render the fully
        // resolved page — head, plain body without any streaming artifacts,
        // hydration script, trailer — and store it under the route
        if self.incremental_cache.is_some() {
            let mut cached_render = String::new();
            wrapper.render_head(&mut cached_render, document);
            renderer.render_to(&mut cached_render, &virtual_dom);
            wrapper.render_after_main(&mut cached_render, &virtual_dom);
            cached_render.append(post_streaming.as_str());
            proof {
                assert(cached_render@ =~= spec_cached_body(cfg@.index, document@, stf.graph));
            }
            match &mut self.incremental_cache {
                Option::Some(c) => c.cache(route, cached_render, now),
                Option::None => {},
            }
        }
        stream.render(post_streaming);
        // the session is over: the renderer goes back to the pool for reuse
        self.renderers.push(renderer);
        Result::Ok((RenderFreshness::now(Option::None), stream.chunks))
    }

    /// Look for a fresh cached page for this route.
    pub fn check_cached_route(&self, route: &String, now: u64) -> (r: Option<CachedRender>)
        ensures
            match spec_pool_hit(*self, route@, now) {
                Option::Some((body, fresh)) => match r {
                    Option::Some(c) => c.response@ == body && c.freshness == fresh && c.route@
                        == route@,
                    Option::None => false,
                },
                Option::None => r is None,
            },
    {
        match &self.incremental_cache {
            Option::Some(cache) => cache.get(route, now),
            Option::None => Option::None,
        }
    }
}

/// State used in server-side rendering. It keeps a pool of renderers to
/// avoid re-creating them on every request: renderers cache parsed static
/// template fragments, so reuse avoids re-parsing.
pub struct SSRState {
    pub renderers: SsrRendererPool,
}

impl SSRState {
    /// Create a new render state for this serving configuration.
    pub fn new(cfg: &ServeConfig) -> (r: SSRState)
        ensures
            r.renderers.renderers@.len() == 4,
            match cfg@.incremental {
                Option::Some(c) => match r.renderers.incremental_cache {
                    Option::Some(cache) => cache.entries@.len() == 0
                        && cache.invalidate_after_secs == c.invalidate_after_secs,
                    Option::None => false,
                },
                Option::None => r.renderers.incremental_cache is None,
            },
    {
        SSRState { renderers: SsrRendererPool::new(4, cfg.incremental) }
    }

    /// Render the application to HTML: the sole entry point of the engine.
    pub fn render(
        &mut self,
        route: String,
        cfg: &ServeConfig,
        virtual_dom: Graph,
        document: &ServerDocument,
        order: &Vec<usize>,
        cancel_after: Option<usize>,
        now: u64,
    ) -> (r: Result<(RenderFreshness, Vec<String>), SSRError>)
        requires
            wf_graph(virtual_dom@),
        ensures
            render_post(
                old(self).renderers,
                final(self).renderers,
                cfg@,
                route@,
                virtual_dom@,
                document@,
                order@,
                cancel_after,
                now,
                r,
            ),
    {
        self.renderers.render_to(cfg, route, virtual_dom, document, order, cancel_after, now)
    }
}

} // verus!

//! Error classification, cancellation, single-shot mode, and extraction
//! order determinism.

use ssr_engine::cache::IncrementalRendererConfig;
use ssr_engine::graph::{Graph, HydrationEntry, Scope, ScopeError, VNode};
use ssr_engine::hydration::extract_from_suspense_boundary;
use ssr_engine::pool::{apply_completion, SSRState, SSRError};
use ssr_engine::shell::{IndexHtml, ServeConfig, ServerDocument, StreamingMode};

fn text(s: &str) -> VNode {
    VNode::Text(s.to_string())
}

fn el(tag: &str, children: Vec<VNode>) -> VNode {
    VNode::Element { tag: tag.to_string(), children }
}

fn plain_scope(content: VNode) -> Scope {
    Scope {
        suspense: false,
        pending: 0,
        frozen: false,
        error: None,
        data: Vec::new(),
        fallback: text(""),
        content,
    }
}

fn entry(value: &str) -> HydrationEntry {
    HydrationEntry {
        value: value.to_string(),
        debug_type: "String".to_string(),
        location: value.to_string(),
    }
}

fn config(incremental: bool, disabled: bool) -> ServeConfig {
    ServeConfig {
        index: IndexHtml {
            head_before_title: "<head>".to_string(),
            title: "<title>t</title>".to_string(),
            head_after_title: "".to_string(),
            close_head: "</head>".to_string(),
            post_main: "".to_string(),
            after_closing_body_tag: "<!--end-->".to_string(),
        },
        incremental: if incremental {
            Some(IncrementalRendererConfig { invalidate_after_secs: None })
        } else {
            None
        },
        streaming_mode: if disabled { StreamingMode::Disabled } else { StreamingMode::OutOfOrder },
    }
}

fn document() -> ServerDocument {
    ServerDocument { title: None, head_markup: String::new() }
}

/// A root error classified as a routing failure fails the render before any
/// output, as a routing error carrying the message.
#[test]
fn routing_error_classification() {
    let mut root = plain_scope(text("never rendered"));
    root.error = Some(ScopeError { message: "no route matched /nope".to_string(), routing: true });
    let graph = Graph { scopes: vec![root] };
    let cfg = config(false, false);
    let mut state = SSRState::new(&cfg);
    let order: Vec<usize> = Vec::new();
    let r = state.render("/nope".to_string(), &cfg, graph, &document(), &order, None, 0);
    match r {
        Err(SSRError::Routing(m)) => assert_eq!(m, "no route matched /nope"),
        _ => panic!("expected a routing-classified failure"),
    }
}

/// Any other root error fails the render before any output, as a
/// rendering (server-error) failure carrying the message.
#[test]
fn rendering_error_classification() {
    let mut root = plain_scope(text("never rendered"));
    root.error = Some(ScopeError { message: "boom".to_string(), routing: false });
    let graph = Graph { scopes: vec![root] };
    let cfg = config(false, false);
    let mut state = SSRState::new(&cfg);
    let order: Vec<usize> = Vec::new();
    let r = state.render("/".to_string(), &cfg, graph, &document(), &order, None, 0);
    match r {
        Err(SSRError::Incremental(e)) => assert_eq!(e.message(), "boom"),
        _ => panic!("expected a rendering-classified failure"),
    }
}

fn suspended_graph() -> Graph {
    let root = plain_scope(el("main", vec![VNode::Component(1)]));
    let child = Scope {
        suspense: true,
        pending: 1,
        frozen: false,
        error: None,
        data: vec![entry("payload")],
        fallback: text("..."),
        content: text("done"),
    };
    Graph { scopes: vec![root, child] }
}

/// Dropping the stream mid-resolution stops chunk production — the session
/// yields exactly the prefix already produced — and writes no cache entry.
#[test]
fn cancellation_no_further_chunks_no_cache_write() {
    let cfg = config(true, false);
    let mut state = SSRState::new(&cfg);
    let order: Vec<usize> = vec![1];
    let (_, chunks) = state
        .render("/a".to_string(), &cfg, suspended_graph(), &document(), &order, Some(0), 10)
        .ok()
        .expect("cancelled render still returns the initial result");
    assert_eq!(chunks.len(), 1, "only the initial frame was produced");
    assert!(!chunks[0].contains("done"));

    // No cache entry was written: the same route misses and renders afresh.
    let (_, chunks2) = state
        .render("/a".to_string(), &cfg, suspended_graph(), &document(), &order, None, 20)
        .ok()
        .expect("second render should succeed");
    assert_eq!(chunks2.len(), 3, "initial frame, replacement, trailer: not a cache hit");
}

/// With streaming disabled, all asynchronous work completes before any
/// output: one single shot with no placeholders and no replacement chunks.
#[test]
fn disabled_mode_single_shot() {
    let cfg = config(false, true);
    let mut state = SSRState::new(&cfg);
    let order: Vec<usize> = vec![1];
    let (_, chunks) = state
        .render("/b".to_string(), &cfg, suspended_graph(), &document(), &order, None, 0)
        .ok()
        .expect("render should succeed");
    assert_eq!(chunks.len(), 2, "the resolved frame and the trailer");
    assert!(chunks[0].contains("done"));
    assert!(!chunks[0].contains("<template"), "nothing is suspended by the time output starts");
    assert_eq!(chunks[1], "<!--end-->");
}

fn two_boundary_graph() -> Graph {
    let root = plain_scope(el("main", vec![VNode::Component(1), VNode::Component(2)]));
    let a = Scope {
        suspense: true,
        pending: 1,
        frozen: false,
        error: None,
        data: vec![entry("first")],
        fallback: text("..."),
        content: text("A"),
    };
    let b = Scope {
        suspense: true,
        pending: 1,
        frozen: false,
        error: None,
        data: vec![entry("second")],
        fallback: text("..."),
        content: text("B"),
    };
    Graph { scopes: vec![root, a, b] }
}

/// Hydration order determinism: whatever order the asynchronous work
/// completed in, extraction visits the tree depth-first and produces the
/// same entry sequence.
#[test]
fn extraction_order_is_deterministic() {
    let mut g1 = two_boundary_graph();
    apply_completion(&mut g1, 1);
    apply_completion(&mut g1, 2);
    let mut g2 = two_boundary_graph();
    apply_completion(&mut g2, 2);
    apply_completion(&mut g2, 1);
    let d1 = extract_from_suspense_boundary(&g1, 0).serialized();
    let d2 = extract_from_suspense_boundary(&g2, 0).serialized();
    assert_eq!(d1.data, d2.data);
    assert_eq!(d1.debug_types, d2.debug_types);
    assert_eq!(d1.debug_locations, d2.debug_locations);
    assert_eq!(d1.data, "none;first;second", "entries come in tree order, not completion order");
}

/// A boundary nested inside another boundary's loading state gets its own
/// placeholder, attributed to its parent. When the parent resolves and is
/// frozen, the child is not re-rendered with it; when the child resolves,
/// its replacement chunk carries the error its own context holds, so the
/// client can bubble it locally instead of touching already-sent markup.
#[test]
fn nested_boundary_error_in_descendant_payload() {
    let root = plain_scope(el("main", vec![VNode::Component(1)]));
    let parent = Scope {
        suspense: true,
        pending: 1,
        frozen: false,
        error: None,
        data: Vec::new(),
        fallback: el("p", vec![text("waiting"), VNode::Component(2)]),
        content: text("P done"),
    };
    let child = Scope {
        suspense: true,
        pending: 1,
        frozen: false,
        error: Some(ScopeError { message: "child failed".to_string(), routing: false }),
        data: Vec::new(),
        fallback: text("c..."),
        content: text("C done"),
    };
    let graph = Graph { scopes: vec![root, parent, child] };
    let cfg = config(false, false);
    let mut state = SSRState::new(&cfg);
    let order: Vec<usize> = vec![1, 2];
    let (_, chunks) = state
        .render("/n".to_string(), &cfg, graph, &document(), &order, None, 0)
        .ok()
        .expect("render should succeed");
    assert_eq!(chunks.len(), 4, "initial frame, two replacements, trailer");
    // both placeholders are in the initial frame, the child's inside the
    // parent's
    assert!(chunks[0].contains("<template id=\"ds-0\"><p>waiting<template id=\"ds-1\">c...</template></p></template>"));
    // the parent's replacement does not re-render the child
    assert!(chunks[1].contains("<div id=\"ds-r-0\" hidden>P done</div>"));
    assert!(!chunks[1].contains("C done"));
    // the child's replacement carries its own error for local bubbling
    assert!(chunks[2].contains("<div id=\"ds-r-1\" hidden>C done</div>"));
    assert!(chunks[2].contains("err:child failed"));
    assert_eq!(chunks[3], "<!--end-->");
}

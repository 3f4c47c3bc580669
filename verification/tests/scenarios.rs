//! End-to-end render sessions: a static page that is cached, and a
//! streaming page with one suspended child.

use ssr_engine::cache::IncrementalRendererConfig;
use ssr_engine::graph::{Graph, HydrationEntry, Scope, VNode};
use ssr_engine::pool::SSRState;
use ssr_engine::shell::{IndexHtml, ServeConfig, ServerDocument, StreamingMode};

fn text(s: &str) -> VNode {
    VNode::Text(s.to_string())
}

fn el(tag: &str, children: Vec<VNode>) -> VNode {
    VNode::Element { tag: tag.to_string(), children }
}

fn leaf_scope(content: VNode) -> Scope {
    Scope {
        suspense: false,
        pending: 0,
        frozen: false,
        error: None,
        data: Vec::new(),
        fallback: text(""),
        content,
    }
}

fn index() -> IndexHtml {
    IndexHtml {
        head_before_title: "<html><head>".to_string(),
        title: "<title>app</title>".to_string(),
        head_after_title: "".to_string(),
        close_head: "</head><body>".to_string(),
        post_main: "".to_string(),
        after_closing_body_tag: "".to_string(),
    }
}

fn config(incremental: bool, disabled: bool) -> ServeConfig {
    ServeConfig {
        index: index(),
        incremental: if incremental {
            Some(IncrementalRendererConfig { invalidate_after_secs: Some(60) })
        } else {
            None
        },
        streaming_mode: if disabled { StreamingMode::Disabled } else { StreamingMode::OutOfOrder },
    }
}

fn document() -> ServerDocument {
    ServerDocument { title: None, head_markup: String::new() }
}

fn expected_head() -> String {
    "<html><head><title>app</title></head><body><script>window.dx_stream_init()</script>"
        .to_string()
}

fn empty_payload_script() -> String {
    let mut s = String::new();
    s.push_str("<script>window.initial_hydration_data=\"none\";");
    s.push_str("window.initial_hydration_debug_types=\"[]\";");
    s.push_str("window.initial_hydration_debug_locations=\"[extract_from_suspense_boundary]\";");
    s.push_str("</script>");
    s
}

/// A route with no asynchronous children renders as a single chunk holding
/// a 3×3 table with no placeholder markers, and is cached under its route.
#[test]
fn static_table_single_chunk_and_cached() {
    let mut rows: Vec<VNode> = Vec::new();
    for _ in 0..3 {
        let mut cells: Vec<VNode> = Vec::new();
        for _ in 0..3 {
            cells.push(el("td", vec![text("x")]));
        }
        rows.push(el("tr", cells));
    }
    let table = el("table", rows);
    let graph = Graph { scopes: vec![leaf_scope(table)] };
    let cfg = config(true, false);
    let mut state = SSRState::new(&cfg);
    let order: Vec<usize> = Vec::new();
    let (fresh, chunks) = state
        .render("/blog/3".to_string(), &cfg, graph, &document(), &order, None, 100)
        .ok()
        .expect("render should succeed");
    assert_eq!(fresh.age_secs, 0);
    assert_eq!(chunks.len(), 1, "a fully static page streams as one chunk");
    let body = &chunks[0];
    let row_html = "<tr><td>x</td><td>x</td><td>x</td></tr>";
    let table_html = format!("<table>{}{}{}</table>", row_html, row_html, row_html);
    let expected = format!("{}{}{}", expected_head(), table_html, empty_payload_script());
    assert_eq!(body, &expected);
    assert!(!body.contains("<template"), "no placeholder markers in a static page");

    // A second request for the same route is answered from the cache with
    // the byte-identical body.
    let rows2 = vec![el("tr", vec![el("td", vec![text("x")])])];
    let other_graph = Graph { scopes: vec![leaf_scope(el("table", rows2))] };
    let (fresh2, chunks2) = state
        .render("/blog/3".to_string(), &cfg, other_graph, &document(), &order, None, 130)
        .ok()
        .expect("cache hit should succeed");
    assert_eq!(chunks2.len(), 1);
    assert_eq!(chunks2[0], expected, "the cached body is byte-identical");
    assert_eq!(fresh2.age_secs, 30);
    assert_eq!(fresh2.max_age_secs, Some(60));
}

/// A root with one suspended child streams two chunks: the initial frame
/// with one placeholder, then a replacement chunk for the same mount with
/// the resolved markup and its serialized data.
#[test]
fn suspended_child_two_chunks() {
    let root = Scope {
        suspense: false,
        pending: 0,
        frozen: false,
        error: None,
        data: Vec::new(),
        fallback: text(""),
        content: el("div", vec![VNode::Component(1)]),
    };
    let child = Scope {
        suspense: true,
        pending: 1,
        frozen: false,
        error: None,
        data: vec![HydrationEntry {
            value: "42".to_string(),
            debug_type: "u32".to_string(),
            location: "child".to_string(),
        }],
        fallback: text("Loading..."),
        content: text("Resolved!"),
    };
    let graph = Graph { scopes: vec![root, child] };
    let cfg = config(false, false);
    let mut state = SSRState::new(&cfg);
    let order: Vec<usize> = vec![1];
    let (_, chunks) = state
        .render("/".to_string(), &cfg, graph, &document(), &order, None, 0)
        .ok()
        .expect("render should succeed");
    assert_eq!(chunks.len(), 2, "initial frame plus one replacement chunk");
    assert!(chunks[0].contains("<template id=\"ds-0\">Loading...</template>"));
    assert!(!chunks[0].contains("Resolved!"), "suspended content is not in the initial frame");
    assert!(chunks[1].contains("<div id=\"ds-r-0\" hidden>Resolved!</div>"));
    assert!(chunks[1].contains("window.dx_hydrate(0,"));
    assert!(chunks[1].contains("42"), "the serialized child data rides with the replacement");
}

//! Unit tests of the engine's pieces: decimal formatting, the streaming
//! renderer, the registry, the cache, hydration serialization, and the
//! page shell template.

use ssr_engine::cache::{IncrementalRendererConfig, RenderFreshness};
use ssr_engine::graph::{Graph, HydrationEntry, Scope, VNode};
use ssr_engine::hydration::{ErrorEntry, HydrationContext};
use ssr_engine::registry::{PendingSuspenseBoundary, Registry};
use ssr_engine::shell::{FullstackHTMLTemplate, IndexHtml, ServeConfig, ServerDocument, StreamingMode};
use ssr_engine::streaming::StreamingRenderer;
use ssr_engine::text::u64_to_string;

#[test]
fn decimal_formatting() {
    assert_eq!(u64_to_string(0), "0");
    assert_eq!(u64_to_string(7), "7");
    assert_eq!(u64_to_string(90210), "90210");
    assert_eq!(u64_to_string(u64::MAX), "18446744073709551615");
}

#[test]
fn streaming_renderer_buffers_head_into_first_chunk() {
    let mut s = StreamingRenderer::new("HEAD".to_string());
    assert_eq!(s.allocate_mount(), 0);
    assert_eq!(s.allocate_mount(), 1);
    s.render("first".to_string());
    s.render("second".to_string());
    s.render("".to_string());
    assert_eq!(s.chunks, vec!["HEADfirst".to_string(), "second".to_string()]);
}

#[test]
fn streaming_renderer_placeholder_markers() {
    let s = StreamingRenderer::new(String::new());
    let mut out = String::new();
    s.write_placeholder_open(&mut out, 12);
    out.push_str("spinner");
    s.write_placeholder_close(&mut out);
    assert_eq!(out, "<template id=\"ds-12\">spinner</template>");
}

#[test]
fn streaming_renderer_replacement_chunk() {
    let s = StreamingRenderer::new(String::new());
    let ctx = HydrationContext {
        error: Some(ErrorEntry { message: None, location: "here".to_string() }),
        entries: vec![HydrationEntry {
            value: "v".to_string(),
            debug_type: "T".to_string(),
            location: "l".to_string(),
        }],
    };
    let data = ctx.serialized();
    assert_eq!(data.data, "none;v");
    assert_eq!(data.debug_types, "[;T]");
    assert_eq!(data.debug_locations, "[here;l]");
    let mut chunk = String::new();
    s.replace_placeholder(3, &"<b>done</b>".to_string(), &data, &mut chunk);
    let mut expected = String::from("<div id=\"ds-r-3\" hidden><b>done</b></div>");
    expected.push_str("<script>window.dx_hydrate(3,\"none;v\",[;T],[here;l])</script>");
    assert_eq!(chunk, expected);
}

#[test]
fn streaming_renderer_error_terminator() {
    let mut s = StreamingRenderer::new("never sent".to_string());
    s.close_with_error(&"broke".to_string());
    assert_eq!(s.chunks, vec!["<script>window.dx_stream_error(\"broke\")</script>".to_string()]);
    assert!(s.closed);
}

#[test]
fn registry_tracks_boundaries_and_children() {
    let mut r = Registry::new(4);
    assert!(!r.contains(2));
    r.insert(2, PendingSuspenseBoundary { mount: 0, children: Vec::new() });
    assert!(r.contains(2));
    r.record_child(2, 3);
    r.record_child(1, 3); // no boundary at scope 1: recording is a no-op
    let b = r.take(2).expect("boundary was registered");
    assert_eq!(b.mount, 0);
    assert_eq!(b.children, vec![3]);
    assert!(r.take(2).is_none(), "an entry is consumed by its replacement");
}

#[test]
fn cache_expiry_and_last_writer_wins() {
    let mut cache = IncrementalRendererConfig { invalidate_after_secs: Some(10) }.build();
    cache.cache("/p".to_string(), "old".to_string(), 100);
    cache.cache("/p".to_string(), "new".to_string(), 105);
    let hit = cache.get(&"/p".to_string(), 110).expect("fresh entry");
    assert_eq!(hit.response, "new");
    assert_eq!(hit.freshness.age_secs, 5);
    assert_eq!(hit.freshness.max_age_secs, Some(10));
    assert!(cache.get(&"/p".to_string(), 120).is_none(), "expired entries are misses");
    assert!(cache.get(&"/q".to_string(), 106).is_none(), "unknown routes are misses");
}

#[test]
fn freshness_now_is_age_zero() {
    let f = RenderFreshness::now(Some(30));
    assert_eq!(f.age_secs, 0);
    assert_eq!(f.max_age_secs, Some(30));
}

#[test]
fn shell_fragments() {
    let cfg = ServeConfig {
        index: IndexHtml {
            head_before_title: "<head>".to_string(),
            title: "<title>default</title>".to_string(),
            head_after_title: "<meta>".to_string(),
            close_head: "</head>".to_string(),
            post_main: "<footer/>".to_string(),
            after_closing_body_tag: "<!--bye-->".to_string(),
        },
        incremental: None,
        streaming_mode: StreamingMode::OutOfOrder,
    };
    let tpl = FullstackHTMLTemplate::new(&cfg);
    let doc = ServerDocument {
        title: Some("<title>override</title>".to_string()),
        head_markup: "<link>".to_string(),
    };
    let mut head = String::new();
    tpl.render_head(&mut head, &doc);
    let mut expected = String::from("<head><title>override</title><meta><link></head>");
    expected.push_str("<script>window.dx_stream_init()</script>");
    assert_eq!(head, expected);
    let mut tail = String::new();
    tpl.render_after_body(&mut tail);
    assert_eq!(tail, "<!--bye-->");
}

#[test]
fn graph_checker_accepts_and_rejects() {
    let ok = Graph {
        scopes: vec![
            Scope {
                suspense: false,
                pending: 0,
                frozen: false,
                error: None,
                data: Vec::new(),
                fallback: VNode::Text("".to_string()),
                content: VNode::Component(1),
            },
            Scope {
                suspense: false,
                pending: 0,
                frozen: false,
                error: None,
                data: Vec::new(),
                fallback: VNode::Text("".to_string()),
                content: VNode::Text("leaf".to_string()),
            },
        ],
    };
    assert!(ok.check());
    let empty = Graph { scopes: Vec::new() };
    assert!(!empty.check(), "a graph needs a root scope");
    let backward = Graph {
        scopes: vec![Scope {
            suspense: false,
            pending: 0,
            frozen: false,
            error: None,
            data: Vec::new(),
            fallback: VNode::Text("".to_string()),
            content: VNode::Component(0),
        }],
    };
    assert!(!backward.check(), "a scope cannot mount itself or an ancestor");
}

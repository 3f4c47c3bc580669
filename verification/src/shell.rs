//! The page shell template: pure formatting around rendered fragments.
//!
//! The shell wraps the rendered body with the configured head and trailer
//! markup, honours the title and extra head content the application
//! published into the document accumulator, and injects the hydration
//! payload script — the serialized root state together with its type-name
//! and source-location diagnostics, always the three of them together.

use vstd::prelude::*;

use crate::cache::IncrementalRendererConfig;
use crate::graph::{wf_graph, Graph, GraphV};
use crate::hydration::{
    serialize_server_data, spec_extract, spec_serialized_data, spec_serialized_locations,
    spec_serialized_types,
};

verus! {

/// The fixed fragments of the page shell.
pub struct IndexHtml {
    pub head_before_title: String,
    pub title: String,
    pub head_after_title: String,
    pub close_head: String,
    pub post_main: String,
    pub after_closing_body_tag: String,
}

/// Ghost model of the shell fragments.
#[verifier::ext_equal]
pub ghost struct IndexV {
    pub head_before_title: Seq<char>,
    pub title: Seq<char>,
    pub head_after_title: Seq<char>,
    pub close_head: Seq<char>,
    pub post_main: Seq<char>,
    pub after_closing_body_tag: Seq<char>,
}

impl View for IndexHtml {
    type V = IndexV;

    open spec fn view(&self) -> IndexV {
        IndexV {
            head_before_title: self.head_before_title@,
            title: self.title@,
            head_after_title: self.head_after_title@,
            close_head: self.close_head@,
            post_main: self.post_main@,
            after_closing_body_tag: self.after_closing_body_tag@,
        }
    }
}

/// Whether a session streams replacement chunks as suspense resolves, or
/// blocks until all asynchronous work is done and answers in one shot.
#[derive(Clone, Copy, PartialEq, Eq, Structural)]
pub enum StreamingMode {
    Disabled,
    OutOfOrder,
}

/// Per-deployment serving configuration.
pub struct ServeConfig {
    pub index: IndexHtml,
    pub incremental: Option<IncrementalRendererConfig>,
    pub streaming_mode: StreamingMode,
}

/// Ghost model of the configuration.
#[verifier::ext_equal]
pub ghost struct ServeConfigV {
    pub index: IndexV,
    pub incremental: Option<IncrementalRendererConfig>,
    pub streaming_mode: StreamingMode,
}

impl View for ServeConfig {
    type V = ServeConfigV;

    open spec fn view(&self) -> ServeConfigV {
        ServeConfigV {
            index: self.index@,
            incremental: self.incremental,
            streaming_mode: self.streaming_mode,
        }
    }
}

/// The request-scoped document-head accumulator: the title the application
/// set, if any, and extra head markup it injected.
pub struct ServerDocument {
    pub title: Option<String>,
    pub head_markup: String,
}

/// Ghost model of the document accumulator.
#[verifier::ext_equal]
pub ghost struct DocV {
    pub title: Option<Seq<char>>,
    pub head_markup: Seq<char>,
}

impl View for ServerDocument {
    type V = DocV;

    open spec fn view(&self) -> DocV {
        DocV {
            title: match self.title {
                Option::Some(t) => Option::Some(t@),
                Option::None => Option::None,
            },
            head_markup: self.head_markup@,
        }
    }
}

/// The script that prepares the client for streamed placeholder patches.
pub open spec fn spec_streaming_script() -> Seq<char> {
    "<script>window.dx_stream_init()</script>"@
}

/// The head fragment: configured pre-title markup, the document title (or
/// the configured default), post-title markup, the accumulated head content,
/// then the closed head with the streaming bootstrap script.
pub open spec fn spec_render_head(cfg: IndexV, doc: DocV) -> Seq<char> {
    cfg.head_before_title + (match doc.title {
        Option::Some(t) => t,
        Option::None => cfg.title,
    }) + cfg.head_after_title + doc.head_markup + spec_render_before_body(cfg)
}

/// The fragment between head and body: the closed head plus the streaming
/// bootstrap script.
pub open spec fn spec_render_before_body(cfg: IndexV) -> Seq<char> {
    cfg.close_head + spec_streaming_script()
}

/// The fragment after the main element: the hydration payload script for
/// the root scope — data, type names and source locations together — then
/// the configured post-main markup.
pub open spec fn spec_render_after_main(cfg: IndexV, g: GraphV) -> Seq<char> {
    "<script>window.initial_hydration_data=\""@ + spec_serialized_data(spec_extract(g, 0))
        + "\";window.initial_hydration_debug_types=\""@ + spec_serialized_types(
        spec_extract(g, 0),
    ) + "\";window.initial_hydration_debug_locations=\""@ + spec_serialized_locations(
        spec_extract(g, 0),
    ) + "\";</script>"@ + cfg.post_main
}

/// The trailer after the closing body tag.
pub open spec fn spec_render_after_body(cfg: IndexV) -> Seq<char> {
    cfg.after_closing_body_tag
}

/// The template that wraps the body of every page of one deployment. It
/// holds the data needed to resume, on the client, the asynchronous work
/// that already ran on the server.
pub struct FullstackHTMLTemplate {
    pub cfg: ServeConfig,
}

fn clone_index(index: &IndexHtml) -> (r: IndexHtml)
    ensures
        r@ == index@,
{
    IndexHtml {
        head_before_title: index.head_before_title.clone(),
        title: index.title.clone(),
        head_after_title: index.head_after_title.clone(),
        close_head: index.close_head.clone(),
        post_main: index.post_main.clone(),
        after_closing_body_tag: index.after_closing_body_tag.clone(),
    }
}

/// Clone a serving configuration.
pub fn clone_config(cfg: &ServeConfig) -> (r: ServeConfig)
    ensures
        r@ == cfg@,
{
    ServeConfig {
        index: clone_index(&cfg.index),
        incremental: cfg.incremental,
        streaming_mode: cfg.streaming_mode,
    }
}

impl FullstackHTMLTemplate {
    /// Create a new template for the given configuration.
    pub fn new(cfg: &ServeConfig) -> (r: FullstackHTMLTemplate)
        ensures
            r.cfg@ == cfg@,
    {
        FullstackHTMLTemplate { cfg: clone_config(cfg) }
    }

    /// Render the content before and including the head of the page.
    pub fn render_head(&self, to: &mut String, doc: &ServerDocument)
        ensures
            final(to)@ == old(to)@ + spec_render_head(self.cfg@.index, doc@),
    {
        to.append(self.cfg.index.head_before_title.as_str());
        match &doc.title {
            Option::Some(t) => to.append(t.as_str()),
            Option::None => to.append(self.cfg.index.title.as_str()),
        }
        to.append(self.cfg.index.head_after_title.as_str());
        to.append(doc.head_markup.as_str());
        self.render_before_body(to);
        proof {
            assert(final(to)@ =~= old(to)@ + spec_render_head(self.cfg@.index, doc@));
        }
    }

    /// Render the content between the head and the body of the page.
    fn render_before_body(&self, to: &mut String)
        ensures
            final(to)@ == old(to)@ + spec_render_before_body(self.cfg@.index),
    {
        to.append(self.cfg.index.close_head.as_str());
        to.append("<script>window.dx_stream_init()</script>");
        proof {
            assert(final(to)@ =~= old(to)@ + spec_render_before_body(self.cfg@.index));
        }
    }

    /// Render the content after the main element: the root hydration
    /// payload — even when every value is still unresolved, the client must
    /// learn not to re-run work the server already owns — then the
    /// configured post-main markup.
    pub fn render_after_main(&self, to: &mut String, virtual_dom: &Graph)
        requires
            wf_graph(virtual_dom@),
        ensures
            final(to)@ == old(to)@ + spec_render_after_main(self.cfg@.index, virtual_dom@),
    {
        let resolved_data = serialize_server_data(virtual_dom, 0);
        to.append("<script>window.initial_hydration_data=\"");
        to.append(resolved_data.data.as_str());
        to.append("\";window.initial_hydration_debug_types=\"");
        to.append(resolved_data.debug_types.as_str());
        to.append("\";window.initial_hydration_debug_locations=\"");
        to.append(resolved_data.debug_locations.as_str());
        to.append("\";</script>");
        to.append(self.cfg.index.post_main.as_str());
        proof {
            assert(final(to)@ =~= old(to)@ + spec_render_after_main(
                self.cfg@.index,
                virtual_dom@,
            ));
        }
    }

    /// Render the content after the body of the page.
    pub fn render_after_body(&self, to: &mut String)
        ensures
            final(to)@ == old(to)@ + spec_render_after_body(self.cfg@.index),
    {
        to.append(self.cfg.index.after_closing_body_tag.as_str());
    }
}

} // verus!

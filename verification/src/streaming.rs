//! The streaming renderer: ordered chunk emission, placeholder slots, and
//! in-place replacement instructions.
//!
//! The renderer owns the output chunk sequence of one render session. Chunks
//! appear in exactly the order `render` is called; a placeholder reserves a
//! fresh mount identifier and wraps the loading markup in a marker embedding
//! it; a replacement emits a client-executable patch instruction that locates
//! the marked node, swaps in the resolved markup, and injects the serialized
//! hydration data keyed to the same mount.

use vstd::prelude::*;

use crate::hydration::SerializedHydrationData;
use crate::text::{spec_decimal, u64_to_string};

verus! {

/// Buffers and emits the text chunks of one render session.
///
/// Markup handed to `new` (the page head) is buffered and prepended to the
/// first chunk, so the first thing the client receives is a complete frame.
pub struct StreamingRenderer {
    pub pending: String,
    pub chunks: Vec<String>,
    pub next_mount: u64,
    pub closed: bool,
}

/// The marker that opens a placeholder for mount `m`.
pub open spec fn spec_placeholder_open(m: nat) -> Seq<char> {
    "<template id=\"ds-"@ + spec_decimal(m) + "\">"@
}

/// The marker that closes a placeholder.
pub open spec fn spec_placeholder_close() -> Seq<char> {
    "</template>"@
}

/// The chunk that replaces the placeholder of mount `m` with resolved markup
/// and hands the client the serialized hydration data for it.
pub open spec fn spec_replace_chunk(
    m: nat,
    markup: Seq<char>,
    data: Seq<char>,
    types: Seq<char>,
    locations: Seq<char>,
) -> Seq<char> {
    "<div id=\"ds-r-"@ + spec_decimal(m) + "\" hidden>"@ + markup
        + "</div><script>window.dx_hydrate("@ + spec_decimal(m) + ",\""@ + data + "\","@ + types
        + ","@ + locations + ")</script>"@
}

/// The terminal chunk of a stream that failed after output began.
pub open spec fn spec_error_chunk(message: Seq<char>) -> Seq<char> {
    "<script>window.dx_stream_error(\""@ + message + "\")</script>"@
}

impl StreamingRenderer {
    /// A renderer whose first chunk will begin with `before_body`.
    pub fn new(before_body: String) -> (r: StreamingRenderer)
        ensures
            r.pending@ == before_body@,
            r.chunks@ =~= Seq::<String>::empty(),
            r.next_mount == 0,
            !r.closed,
    {
        StreamingRenderer { pending: before_body, chunks: Vec::new(), next_mount: 0, closed: false }
    }

    /// Append one complete chunk to the output: whatever head markup is
    /// still buffered, followed by `markup`. Appending nothing at all is a
    /// no-op — an empty chunk is never emitted.
    pub fn render(&mut self, markup: String)
        requires
            !old(self).closed,
        ensures
            final(self).pending@ == Seq::<char>::empty(),
            final(self).chunks@.map_values(|c: String| c@) == spec_render_chunks(
                old(self).pending@,
                old(self).chunks@.map_values(|c: String| c@),
                markup@,
            ),
            final(self).next_mount == old(self).next_mount,
            !final(self).closed,
    {
        if self.pending.as_str().is_empty() && markup.as_str().is_empty() {
            self.pending = String::new();
            proof {
                assert(final(self).pending@ =~= Seq::<char>::empty());
            }
        } else {
            let mut whole = self.pending.clone();
            self.pending = String::new();
            whole.append(markup.as_str());
            let ghost prev = self.chunks@.map_values(|c: String| c@);
            self.chunks.push(whole);
            proof {
                assert(final(self).chunks@.map_values(|c: String| c@) =~= prev.push(
                    old(self).pending@ + markup@,
                ));
            }
        }
    }

    /// Reserve a fresh mount identifier for a placeholder slot.
    pub fn allocate_mount(&mut self) -> (m: u64)
        requires
            old(self).next_mount < u64::MAX,
        ensures
            m == old(self).next_mount,
            final(self).next_mount == old(self).next_mount + 1,
            final(self).pending == old(self).pending,
            final(self).chunks == old(self).chunks,
            final(self).closed == old(self).closed,
    {
        let m = self.next_mount;
        self.next_mount = m + 1;
        m
    }

    /// Write the marker that opens the placeholder of mount `m` into the
    /// frame being built.
    pub fn write_placeholder_open(&self, out: &mut String, m: u64)
        ensures
            final(out)@ == old(out)@ + spec_placeholder_open(m as nat),
    {
        out.append("<template id=\"ds-");
        let digits = u64_to_string(m);
        out.append(digits.as_str());
        out.append("\">");
        proof {
            assert(final(out)@ =~= old(out)@ + spec_placeholder_open(m as nat));
        }
    }

    /// Write the marker that closes a placeholder.
    pub fn write_placeholder_close(&self, out: &mut String)
        ensures
            final(out)@ == old(out)@ + spec_placeholder_close(),
    {
        out.append("</template>");
    }

    /// Write into `out` the patch instruction that replaces the placeholder
    /// of `mount` with `markup`, followed by the script injecting the
    /// serialized hydration data keyed to the same mount.
    pub fn replace_placeholder(
        &self,
        mount: u64,
        markup: &String,
        resolved_data: &SerializedHydrationData,
        out: &mut String,
    )
        ensures
            final(out)@ == old(out)@ + spec_replace_chunk(
                mount as nat,
                markup@,
                resolved_data.data@,
                resolved_data.debug_types@,
                resolved_data.debug_locations@,
            ),
    {
        let digits = u64_to_string(mount);
        out.append("<div id=\"ds-r-");
        out.append(digits.as_str());
        out.append("\" hidden>");
        out.append(markup.as_str());
        out.append("</div><script>window.dx_hydrate(");
        out.append(digits.as_str());
        out.append(",\"");
        out.append(resolved_data.data.as_str());
        out.append("\",");
        out.append(resolved_data.debug_types.as_str());
        out.append(",");
        out.append(resolved_data.debug_locations.as_str());
        out.append(")</script>");
        proof {
            assert(final(out)@ =~= old(out)@ + spec_replace_chunk(
                mount as nat,
                markup@,
                resolved_data.data@,
                resolved_data.debug_types@,
                resolved_data.debug_locations@,
            ));
        }
    }

    /// End the stream with a terminal error chunk; no chunk ever follows.
    /// Head markup that was never emitted is discarded: a failure before the
    /// first chunk produces no partial page.
    pub fn close_with_error(&mut self, message: &String)
        requires
            !old(self).closed,
        ensures
            final(self).closed,
            final(self).pending@ == Seq::<char>::empty(),
            final(self).chunks@.map_values(|c: String| c@) == old(self).chunks@.map_values(
                |c: String| c@,
            ).push(spec_error_chunk(message@)),
            final(self).next_mount == old(self).next_mount,
    {
        self.pending = String::new();
        let mut chunk = String::from_str("<script>window.dx_stream_error(\"");
        chunk.append(message.as_str());
        chunk.append("\")</script>");
        let ghost prev = self.chunks@.map_values(|c: String| c@);
        self.chunks.push(chunk);
        self.closed = true;
        proof {
            assert(final(self).pending@ =~= Seq::<char>::empty());
            assert(final(self).chunks@.map_values(|c: String| c@) =~= prev.push(
                spec_error_chunk(message@),
            ));
        }
    }
}

/// What one `render` call does to the chunk sequence: nothing when there is
/// nothing to emit, otherwise one new chunk holding the buffered head markup
/// followed by the new markup.
pub open spec fn spec_render_chunks(
    pending: Seq<char>,
    chunks: Seq<Seq<char>>,
    markup: Seq<char>,
) -> Seq<Seq<char>> {
    if pending.len() == 0 && markup.len() == 0 {
        chunks
    } else {
        chunks.push(pending + markup)
    }
}

} // verus!

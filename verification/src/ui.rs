//! What is shown of a pull: lines, styles, and the progress of layers.
use vstd::hash_map::StringHashMap;
use vstd::prelude::*;

use crate::error::{concat2, concat3};
use crate::retry::Delay;
use crate::text::{self, opt_string, texts};
use crate::units::{bytes_text, format_bytes};

verus! {

/// The least time between two renderings of the same progress, in milliseconds.
pub const RENDER_INTERVAL_MS: u64 = 100;

/// A style of text.
#[derive(Debug, Clone, Copy, PartialEq, Eq, Structural)]
pub enum Style {
    Green,
    Yellow,
    Warning,
    Cyan,
    Dim,
}

/// The terminal sequence that starts a style.
pub open spec fn style_start(style: Style) -> Seq<char> {
    match style {
        Style::Green => "\u{1b}[32m"@,
        Style::Yellow => "\u{1b}[33m"@,
        Style::Warning => "\u{1b}[1m\u{1b}[33m"@,
        Style::Cyan => "\u{1b}[36m"@,
        Style::Dim => "\u{1b}[2m"@,
    }
}

/// A text in a style, where styles are shown.
pub open spec fn painted(value: Seq<char>, style: Style, color: bool) -> Seq<char> {
    if color {
        style_start(style) + value + "\u{1b}[0m"@
    } else {
        value
    }
}

/// Puts a text in a style, where styles are shown.
pub fn paint(value: &str, style: Style, color: bool) -> (s: String)
    ensures
        s@ == painted(value@, style, color),
{
    if !color {
        return value.to_owned();
    }
    let start = match style {
        Style::Green => "\u{1b}[32m",
        Style::Yellow => "\u{1b}[33m",
        Style::Warning => "\u{1b}[1m\u{1b}[33m",
        Style::Cyan => "\u{1b}[36m",
        Style::Dim => "\u{1b}[2m",
    };
    concat3(start, value, "\u{1b}[0m")
}

/// A warning.
pub fn warning_message(message: &str, color: bool) -> (s: String)
    ensures
        s@ == painted("warning:"@, Style::Warning, color) + " "@ + message@,
{
    concat3(paint("warning:", Style::Warning, color).as_str(), " ", message)
}

/// A line of plain output, behind the prefix of its image where it has one.
pub fn plain_line(prefix: Option<&str>, message: &str) -> (s: String)
    ensures
        s@ == match prefix {
            Some(p) => "["@ + p@ + "] "@ + message@,
            None => message@,
        },
{
    match prefix {
        Some(p) => {
            let mut s = concat3("[", p, "] ");
            s.append(message);
            s
        },
        None => message.to_owned(),
    }
}

/// The status of an image, in plain output.
pub fn plain_image_message(image: &str, status: &str) -> (s: String)
    ensures
        s@ == "image "@ + image@ + ": "@ + status@,
{
    let mut s = concat3("image ", image, ": ");
    s.append(status);
    s
}

/// The start of the value of a digest.
pub open spec fn short_digest_view(digest: Seq<char>) -> Seq<char> {
    let value = match text::split_once_view(digest, ':') {
        Some((_, value)) => value,
        None => digest,
    };
    if value.len() > 12 {
        value.take(12)
    } else {
        value
    }
}

/// The start of the value of a digest.
pub fn short_digest(digest: &str) -> (s: String)
    ensures
        s@ == short_digest_view(digest@),
{
    let value = match text::split_once(digest, ':') {
        Some((_, value)) => value,
        None => digest,
    };
    if value.unicode_len() > 12 {
        assert(value@.subrange(0, 12) =~= value@.take(12));
        value.substring_char(0, 12).to_owned()
    } else {
        value.to_owned()
    }
}

/// The status of a layer, in plain output.
pub fn plain_layer_message(digest: &str, status: &str) -> (s: String)
    ensures
        s@ == "layer "@ + short_digest_view(digest@) + ": "@ + status@,
{
    let mut s = concat3("layer ", short_digest(digest).as_str(), ": ");
    s.append(status);
    s
}

/// What plain output says of a download that begins, at the start of the blob or inside it.
pub fn plain_layer_download_message(digest: &str, total_bytes: u64, starting_offset: u64) -> (s:
    String)
    ensures
        s@ == "layer "@ + short_digest_view(digest@) + ": "@ + if starting_offset == 0 {
            "Downloading "@ + bytes_text(total_bytes)
        } else {
            "Resuming "@ + bytes_text(starting_offset) + "/"@ + bytes_text(total_bytes)
        },
{
    if starting_offset == 0 {
        let status = concat2("Downloading ", format_bytes(total_bytes).as_str());
        return plain_layer_message(digest, status.as_str());
    }
    let mut status = concat3("Resuming ", format_bytes(starting_offset).as_str(), "/");
    status.append(format_bytes(total_bytes).as_str());
    plain_layer_message(digest, status.as_str())
}

/// What a process status says about its terminal: whether it has none, or its process group is the
/// one in the foreground.
pub open spec fn foreground_view(stat: Seq<char>) -> Option<bool> {
    match text::rsplit_once_text(stat, ") "@) {
        None => None,
        Some((_, rest)) => {
            let fields = text::words_view(rest);
            if fields.len() < 6 {
                None
            } else {
                match (
                    text::parse_signed_view(fields[2], i32::MIN as int, i32::MAX as int),
                    text::parse_signed_view(fields[4], i32::MIN as int, i32::MAX as int),
                    text::parse_signed_view(fields[5], i32::MIN as int, i32::MAX as int),
                ) {
                    (Some(group), Some(tty), Some(foreground)) => Some(
                        tty == 0 || group == foreground,
                    ),
                    _ => None,
                }
            }
        },
    }
}

/// Reads from a process status whether the process is a foreground job of its terminal.
pub fn linux_process_is_foreground_tty_job_from_stat(stat: &str) -> (r: Option<bool>)
    ensures
        r == foreground_view(stat@),
{
    let rest = match text::rsplit_once_str(stat, ") ") {
        None => {
            return None;
        },
        Some((_, rest)) => rest,
    };
    let fields = text::split_whitespace(rest);
    if fields.len() < 6 {
        return None;
    }
    let ghost all = text::str_texts(fields@);
    assert(all[2] == fields@[2]@ && all[4] == fields@[4]@ && all[5] == fields@[5]@);
    let low: i64 = -2147483648;
    let high: i64 = 2147483647;
    match (
        text::parse_signed(fields[2], low, high),
        text::parse_signed(fields[4], low, high),
        text::parse_signed(fields[5], low, high),
    ) {
        (Some(group), Some(tty), Some(foreground)) => Some(tty == 0 || group == foreground),
        _ => None,
    }
}

/// How far a layer has come.
#[derive(Debug, Clone, Copy, PartialEq, Eq, Structural)]
pub enum AggregateLayerState {
    Waiting,
    Downloading,
    Complete,
}

/// The progress of a layer.
#[derive(Debug)]
pub struct AggregateLayer {
    pub total: u64,
    pub position: u64,
    pub state: AggregateLayerState,
    pub status: Option<String>,
}

/// The progress of a layer, as text.
pub struct LayerView {
    pub total: u64,
    pub position: u64,
    pub state: AggregateLayerState,
    pub status: Option<Seq<char>>,
}

impl View for AggregateLayer {
    type V = LayerView;

    open spec fn view(&self) -> LayerView {
        LayerView {
            total: self.total,
            position: self.position,
            state: self.state,
            status: opt_string(self.status),
        }
    }
}

/// A layer of which nothing is known yet.
pub open spec fn new_layer() -> LayerView {
    LayerView { total: 0, position: 0, state: AggregateLayerState::Waiting, status: None }
}

impl AggregateLayer {
    /// A layer of which nothing is known yet.
    pub fn new() -> (layer: AggregateLayer)
        ensures
            layer@ == new_layer(),
    {
        AggregateLayer {
            total: 0,
            position: 0,
            state: AggregateLayerState::Waiting,
            status: None,
        }
    }

    /// A copy of the layer.
    pub fn copy(&self) -> (r: AggregateLayer)
        ensures
            r@ == self@,
    {
        AggregateLayer {
            total: self.total,
            position: self.position,
            state: self.state,
            status: match &self.status {
                Some(s) => Some(s.clone()),
                None => None,
            },
        }
    }
}

/// The lesser of two amounts.
pub open spec fn least(a: int, b: int) -> int {
    if a < b {
        a
    } else {
        b
    }
}

/// The character for a layer in a strip: blank while it waits, full when it is complete, and as
/// full as it is far otherwise.
pub open spec fn progress_char(layer: LayerView) -> char {
    if layer.state == AggregateLayerState::Waiting {
        ' '
    } else if layer.state == AggregateLayerState::Complete {
        fill_char(8)
    } else if layer.total == 0 {
        fill_char(0)
    } else {
        let percent = least(layer.position * 100, u64::MAX as int) / layer.total as int;
        fill_char(8 * least(percent, 100) / 100)
    }
}

/// A character that is filled by so many eighths.
pub open spec fn fill_char(eighths: int) -> char {
    if eighths <= 0 {
        '⠀'
    } else if eighths == 1 {
        '⡀'
    } else if eighths == 2 {
        '⣀'
    } else if eighths == 3 {
        '⣄'
    } else if eighths == 4 {
        '⣤'
    } else if eighths == 5 {
        '⣦'
    } else if eighths == 6 {
        '⣶'
    } else if eighths == 7 {
        '⣷'
    } else {
        '⣿'
    }
}

/// A character that is filled by so many eighths.
fn filled(eighths: u64) -> (c: char)
    ensures
        c == fill_char(eighths as int),
{
    if eighths == 0 {
        '⠀'
    } else if eighths == 1 {
        '⡀'
    } else if eighths == 2 {
        '⣀'
    } else if eighths == 3 {
        '⣄'
    } else if eighths == 4 {
        '⣤'
    } else if eighths == 5 {
        '⣦'
    } else if eighths == 6 {
        '⣶'
    } else if eighths == 7 {
        '⣷'
    } else {
        '⣿'
    }
}

/// The character for a layer in a strip.
pub fn layer_progress_char(layer: &AggregateLayer) -> (c: char)
    ensures
        c == progress_char(layer@),
{
    match layer.state {
        AggregateLayerState::Waiting => ' ',
        AggregateLayerState::Complete => filled(8),
        AggregateLayerState::Downloading => {
            if layer.total == 0 {
                return filled(0);
            }
            let scaled: u64 = if layer.position > u64::MAX / 100 {
                u64::MAX
            } else {
                layer.position * 100
            };
            let percent = scaled / layer.total;
            let capped: u64 = if percent < 100 {
                percent
            } else {
                100
            };
            filled(8 * capped / 100)
        },
    }
}

/// How far along a layer with a status is.
pub open spec fn state_for(status: Seq<char>) -> AggregateLayerState {
    if text::contains_text(status, "Pull complete"@) || text::contains_text(
        status,
        "Already exists"@,
    ) {
        AggregateLayerState::Complete
    } else if text::contains_text(status, "Waiting"@) {
        AggregateLayerState::Waiting
    } else {
        AggregateLayerState::Downloading
    }
}

/// Tells from its status how far along a layer is.
pub fn aggregate_layer_state_for_status(status: &str) -> (state: AggregateLayerState)
    ensures
        state == state_for(status@),
{
    if text::contains_str(status, "Pull complete") || text::contains_str(
        status,
        "Already exists",
    ) {
        AggregateLayerState::Complete
    } else if text::contains_str(status, "Waiting") {
        AggregateLayerState::Waiting
    } else {
        AggregateLayerState::Downloading
    }
}

/// What is shown of the progress of an image.
#[derive(Debug)]
pub struct AggregateRender {
    pub strip: String,
    pub strip_states: Vec<AggregateLayerState>,
    pub total_bytes: u64,
    pub position: u64,
    pub hide_bytes: bool,
    pub completed_layers: usize,
    pub total_layers: usize,
    pub status: String,
}

/// What is shown of the progress of an image, as text.
pub struct RenderView {
    pub strip: Seq<char>,
    pub strip_states: Seq<AggregateLayerState>,
    pub total_bytes: int,
    pub position: int,
    pub hide_bytes: bool,
    pub completed_layers: int,
    pub total_layers: int,
    pub status: Seq<char>,
}

impl View for AggregateRender {
    type V = RenderView;

    open spec fn view(&self) -> RenderView {
        RenderView {
            strip: self.strip@,
            strip_states: self.strip_states@,
            total_bytes: self.total_bytes as int,
            position: self.position as int,
            hide_bytes: self.hide_bytes,
            completed_layers: self.completed_layers as int,
            total_layers: self.total_layers as int,
            status: self.status@,
        }
    }
}

/// The progress of the layers of an image, in the order in which they are shown.
pub struct AggregateProgress {
    order: Vec<String>,
    layers: StringHashMap<AggregateLayer>,
    last_rendered: Option<AggregateRender>,
    last_rendered_at: Option<Delay>,
}

/// The layers of an order that are known.
pub open spec fn ordered_layers(
    order: Seq<Seq<char>>,
    layers: Map<Seq<char>, LayerView>,
) -> Seq<LayerView>
    decreases order.len(),
{
    if order.len() == 0 {
        seq![]
    } else if layers.contains_key(order.last()) {
        ordered_layers(order.drop_last(), layers).push(layers[order.last()])
    } else {
        ordered_layers(order.drop_last(), layers)
    }
}

/// The bytes of layers.
pub open spec fn total_bytes(layers: Seq<LayerView>) -> int
    decreases layers.len(),
{
    if layers.len() == 0 {
        0
    } else {
        total_bytes(layers.drop_last()) + layers.last().total
    }
}

/// The bytes of layers that are there.
pub open spec fn total_position(layers: Seq<LayerView>) -> int
    decreases layers.len(),
{
    if layers.len() == 0 {
        0
    } else {
        total_position(layers.drop_last()) + layers.last().position
    }
}

/// How many layers are complete.
pub open spec fn complete_count(layers: Seq<LayerView>) -> int
    decreases layers.len(),
{
    if layers.len() == 0 {
        0
    } else {
        complete_count(layers.drop_last()) + if layers.last().state
            == AggregateLayerState::Complete {
            1int
        } else {
            0
        }
    }
}

/// Whether the size of a layer that is not complete is not known.
pub open spec fn has_unknown_size(layers: Seq<LayerView>) -> bool {
    exists|i: int|
        0 <= i < layers.len() && (#[trigger] layers[i]).state != AggregateLayerState::Complete
            && layers[i].total == 0
}

/// Whether the status of a layer stands for the whole image: it waits, or something other than a
/// plain pull goes on.
pub open spec fn speaks_for_all(layer: LayerView) -> bool {
    layer.status is Some && layer.state != AggregateLayerState::Complete && (layer.state
        == AggregateLayerState::Waiting || layer.status->0 != "Pulling"@)
}

/// The status of an image, given whether a layer before was not complete, and the status of the
/// last complete layer before.
pub open spec fn status_view(
    layers: Seq<LayerView>,
    incomplete: bool,
    complete: Option<Seq<char>>,
) -> Seq<char>
    decreases layers.len(),
{
    if layers.len() == 0 {
        if incomplete || complete is None {
            "Pulling"@
        } else {
            complete->0
        }
    } else {
        let layer = layers[0];
        if speaks_for_all(layer) {
            layer.status->0
        } else if layer.state == AggregateLayerState::Complete {
            status_view(
                layers.skip(1),
                incomplete,
                if layer.status is Some {
                    layer.status
                } else {
                    complete
                },
            )
        } else {
            status_view(layers.skip(1), true, complete)
        }
    }
}

/// What is shown of layers.
pub open spec fn render_view(layers: Seq<LayerView>, total_layers: int) -> RenderView {
    RenderView {
        strip: layers.map_values(|l: LayerView| progress_char(l)),
        strip_states: layers.map_values(|l: LayerView| l.state),
        total_bytes: total_bytes(layers),
        position: total_position(layers),
        hide_bytes: has_unknown_size(layers),
        completed_layers: complete_count(layers),
        total_layers,
        status: status_view(layers, false, None),
    }
}

impl AggregateProgress {
    /// The order of the layers.
    pub closed spec fn order_view(self) -> Seq<Seq<char>> {
        texts(self.order@)
    }

    /// What is known of the layers.
    pub closed spec fn layers_view(self) -> Map<Seq<char>, LayerView> {
        self.layers@.map_values(|l: AggregateLayer| l@)
    }

    /// What was shown last.
    pub closed spec fn shown(self) -> Option<RenderView> {
        match self.last_rendered {
            Some(r) => Some(r@),
            None => None,
        }
    }

    /// When something was shown last.
    pub closed spec fn shown_at(self) -> Option<Delay> {
        self.last_rendered_at
    }

    /// The layers in the order in which they are shown.
    pub open spec fn in_order(self) -> Seq<LayerView> {
        ordered_layers(self.order_view(), self.layers_view())
    }

    /// What there is to show.
    pub open spec fn current(self) -> RenderView {
        render_view(self.in_order(), self.order_view().len() as int)
    }

    /// Whether the amounts can be counted.
    pub open spec fn fits(self) -> bool {
        total_bytes(self.in_order()) <= u64::MAX && total_position(self.in_order()) <= u64::MAX
    }

    /// Whether times are readings of a clock.
    pub open spec fn wf(self) -> bool {
        self.shown_at() matches Some(at) ==> at.wf()
    }

    /// Layers in an order of which nothing is known.
    pub fn new(order: Vec<String>) -> (r: AggregateProgress)
        ensures
            r.order_view() == texts(order@),
            r.layers_view() == Map::<Seq<char>, LayerView>::empty(),
            r.shown() is None,
            r.shown_at() is None,
            r.wf(),
    {
        let r = AggregateProgress {
            order,
            layers: StringHashMap::new(),
            last_rendered: None,
            last_rendered_at: None,
        };
        assert(r.layers_view() =~= Map::<Seq<char>, LayerView>::empty());
        r
    }

    /// What is known of a layer.
    pub fn layer(&self, digest: &str) -> (r: Option<AggregateLayer>)
        ensures
            match r {
                Some(layer) => self.layers_view().contains_key(digest@)
                    && self.layers_view()[digest@] == layer@,
                None => !self.layers_view().contains_key(digest@),
            },
    {
        match self.layers.get(digest) {
            Some(layer) => Some(layer.copy()),
            None => None,
        }
    }

    /// Notes what is known of a layer.
    pub fn insert_layer(&mut self, digest: &str, layer: AggregateLayer)
        ensures
            final(self).layers_view() == old(self).layers_view().insert(digest@, layer@),
            final(self).order_view() == old(self).order_view(),
            final(self).shown() == old(self).shown(),
            final(self).shown_at() == old(self).shown_at(),
    {
        self.layers.insert(digest.to_owned(), layer);
        assert(self.layers_view() =~= old(self).layers_view().insert(digest@, layer@));
    }

    /// What is known of a layer; one that was not known is put behind the others.
    fn touch_layer(&mut self, digest: &str) -> (layer: AggregateLayer)
        ensures
            final(self).layers_view() == old(self).layers_view(),
            final(self).shown() == old(self).shown(),
            final(self).shown_at() == old(self).shown_at(),
            final(self).order_view() == with_order(*old(self), digest@),
            layer@ == touched(*old(self), digest@),
    {
        match self.layer(digest) {
            Some(layer) => layer,
            None => {
                self.order.push(digest.to_owned());
                assert(self.order_view() =~= old(self).order_view().push(digest@));
                AggregateLayer::new()
            },
        }
    }

    /// Starts over with the layers of an image.
    pub fn prepare(&mut self, digests: &Vec<String>)
        ensures
            final(self).order_view() == texts(digests@),
            final(self).shown() is None,
            final(self).shown_at() is None,
            final(self).wf(),
            forall|d: Seq<char>| #[trigger]
                final(self).layers_view().contains_key(d) <==> texts(digests@).contains(d),
            forall|d: Seq<char>| #[trigger]
                final(self).layers_view().contains_key(d) ==> final(self).layers_view()[d]
                    == new_layer(),
    {
        let mut fresh = AggregateProgress::new(text::copy_list(digests));
        let ghost all = texts(digests@);
        let mut i: usize = 0;
        while i < digests.len()
            invariant
                i <= digests@.len(),
                all == texts(digests@),
                fresh.order_view() == all,
                fresh.shown() is None,
                fresh.shown_at() is None,
                forall|d: Seq<char>| #[trigger]
                    fresh.layers_view().contains_key(d) <==> all.take(i as int).contains(d),
                forall|d: Seq<char>| #[trigger]
                    fresh.layers_view().contains_key(d) ==> fresh.layers_view()[d] == new_layer(),
            decreases digests@.len() - i,
        {
            let ghost before = fresh.layers_view();
            fresh.insert_layer(digests[i].as_str(), AggregateLayer::new());
            proof {
                assert(all.take(i + 1) =~= all.take(i as int).push(digests@[i as int]@));
                assert forall|d: Seq<char>| #[trigger]
                    fresh.layers_view().contains_key(d) <==> all.take(i + 1).contains(d) by {
                    if all.take(i as int).contains(d) {
                        let k = choose|k: int|
                            0 <= k < all.take(i as int).len() && all.take(i as int)[k] == d;
                        assert(all.take(i + 1)[k] == d);
                    }
                    if d == digests@[i as int]@ {
                        assert(all.take(i + 1)[i as int] == d);
                    }
                    assert(before.contains_key(d) <==> all.take(i as int).contains(d));
                }
            }
            i += 1;
        }
        assert(all.take(i as int) =~= all);
        *self = fresh;
    }

    /// A download begins.
    pub fn start_layer(&mut self, digest: &str, total_bytes: u64, starting_offset: u64)
        ensures
            final(self).order_view() == with_order(*old(self), digest@),
            final(self).shown() == old(self).shown(),
            final(self).shown_at() == old(self).shown_at(),
            final(self).layers_view() == old(self).layers_view().insert(
                digest@,
                LayerView {
                    total: total_bytes,
                    position: least(starting_offset as int, total_bytes as int) as u64,
                    state: if starting_offset >= total_bytes && total_bytes > 0 {
                        AggregateLayerState::Complete
                    } else {
                        AggregateLayerState::Downloading
                    },
                    status: Some("Pulling"@),
                },
            ),
    {
        let mut layer = self.touch_layer(digest);
        layer.total = total_bytes;
        layer.position = if starting_offset < total_bytes {
            starting_offset
        } else {
            total_bytes
        };
        layer.state = if layer.position >= total_bytes && total_bytes > 0 {
            AggregateLayerState::Complete
        } else {
            AggregateLayerState::Downloading
        };
        layer.status = Some("Pulling".to_owned());
        self.insert_layer(digest, layer);
    }

    /// Bytes arrived.
    pub fn advance_layer(&mut self, digest: &str, amount: u64)
        ensures
            final(self).order_view() == with_order(*old(self), digest@),
            final(self).shown() == old(self).shown(),
            final(self).shown_at() == old(self).shown_at(),
            final(self).layers_view() == old(self).layers_view().insert(
                digest@,
                advanced(touched(*old(self), digest@), amount),
            ),
    {
        let mut layer = self.touch_layer(digest);
        layer.position = capped_sum(layer.position, amount, layer.total);
        layer.state = if layer.total > 0 && layer.position >= layer.total {
            AggregateLayerState::Complete
        } else {
            AggregateLayerState::Downloading
        };
        layer.status = Some("Pulling".to_owned());
        self.insert_layer(digest, layer);
    }

    /// The status of a layer changes. A complete layer stays complete.
    pub fn set_layer_status(&mut self, digest: &str, status: &str)
        ensures
            final(self).order_view() == with_order(*old(self), digest@),
            final(self).shown() == old(self).shown(),
            final(self).shown_at() == old(self).shown_at(),
            final(self).layers_view() == old(self).layers_view().insert(
                digest@,
                ({
                    let layer = touched(*old(self), digest@);
                    LayerView {
                        total: layer.total,
                        position: layer.position,
                        state: if layer.state == AggregateLayerState::Complete {
                            layer.state
                        } else {
                            state_for(status@)
                        },
                        status: Some(status@),
                    }
                }),
            ),
    {
        let mut layer = self.touch_layer(digest);
        layer.status = Some(status.to_owned());
        if !matches!(layer.state, AggregateLayerState::Complete) {
            layer.state = aggregate_layer_state_for_status(status);
        }
        self.insert_layer(digest, layer);
    }

    /// A layer is complete.
    pub fn finish_layer(&mut self, digest: &str, status: &str)
        ensures
            final(self).order_view() == with_order(*old(self), digest@),
            final(self).shown() == old(self).shown(),
            final(self).shown_at() == old(self).shown_at(),
            final(self).layers_view() == old(self).layers_view().insert(
                digest@,
                ({
                    let layer = touched(*old(self), digest@);
                    LayerView {
                        total: layer.total,
                        position: if layer.total > 0 {
                            layer.total
                        } else {
                            layer.position
                        },
                        state: AggregateLayerState::Complete,
                        status: Some(status@),
                    }
                }),
            ),
    {
        let mut layer = self.touch_layer(digest);
        if layer.total > 0 {
            layer.position = layer.total;
        }
        layer.state = AggregateLayerState::Complete;
        layer.status = Some(status.to_owned());
        self.insert_layer(digest, layer);
    }

    /// The layers in the order in which they are shown.
    fn listed(&self) -> (r: Vec<AggregateLayer>)
        ensures
            listed_view(r@) == self.in_order(),
    {
        let mut out: Vec<AggregateLayer> = Vec::new();
        let ghost all = self.order_view();
        assert(listed_view(out@) =~= Seq::<LayerView>::empty());
        assert(all.take(0) =~= Seq::<Seq<char>>::empty());
        let mut i: usize = 0;
        while i < self.order.len()
            invariant
                i <= self.order@.len(),
                all == self.order_view(),
                listed_view(out@) == ordered_layers(all.take(i as int), self.layers_view()),
            decreases self.order@.len() - i,
        {
            assert(all.take(i + 1).drop_last() =~= all.take(i as int));
            assert(all.take(i + 1).last() == self.order@[i as int]@);
            if let Some(layer) = self.layer(self.order[i].as_str()) {
                let ghost before = out@;
                out.push(layer);
                assert(listed_view(out@) =~= listed_view(before).push(layer@));
            }
            i += 1;
        }
        assert(all.take(i as int) =~= all);
        out
    }

    /// Whether the amounts can be counted.
    pub fn can_count(&self) -> (r: bool)
        ensures
            r == self.fits(),
    {
        let layers = self.listed();
        let ghost all = listed_view(layers@);
        assert(all.take(0) =~= Seq::<LayerView>::empty());
        let mut total: u64 = 0;
        let mut position: u64 = 0;
        let mut i: usize = 0;
        while i < layers.len()
            invariant
                i <= layers@.len(),
                all == listed_view(layers@),
                all == self.in_order(),
                total == total_bytes(all.take(i as int)),
                position == total_position(all.take(i as int)),
            decreases layers@.len() - i,
        {
            assert(all.take(i + 1).drop_last() =~= all.take(i as int));
            assert(all.take(i + 1).last() == layers@[i as int]@);
            proof {
                lemma_sums_grow(all, i + 1);
            }
            if layers[i].total > u64::MAX - total || layers[i].position > u64::MAX - position {
                return false;
            }
            total = total + layers[i].total;
            position = position + layers[i].position;
            i += 1;
        }
        assert(all.take(i as int) =~= all);
        true
    }

    /// Decides whether there is something new to show, and what. What was shown just before is not
    /// shown again, and unless it is forced, nothing is shown too soon after the last time.
    pub fn render(&mut self, force: bool, now: Delay) -> (r: Option<AggregateRender>)
        requires
            old(self).fits(),
            old(self).wf(),
            now.wf(),
        ensures
            final(self).wf(),
            final(self).order_view() == old(self).order_view(),
            final(self).layers_view() == old(self).layers_view(),
            match r {
                Some(render) => is_shown(*old(self), force, now) && render@ == old(self).current()
                    && final(self).shown() == Some(old(self).current()) && final(self).shown_at()
                    == Some(now),
                None => !is_shown(*old(self), force, now) && final(self).shown() == old(
                    self,
                ).shown() && final(self).shown_at() == old(self).shown_at(),
            },
    {
        let render = aggregate_render(self);
        if let Some(last) = &self.last_rendered {
            if same_render(last, &render) {
                return None;
            }
        }
        if !force {
            if let Some(at) = self.last_rendered_at {
                let elapsed = now.saturating_sub(at);
                if elapsed.less(Delay::from_millis(RENDER_INTERVAL_MS)) {
                    return None;
                }
            }
        }
        let shown = copy_render(&render);
        self.last_rendered = Some(render);
        self.last_rendered_at = Some(now);
        Some(shown)
    }
}

/// The order with a layer behind the others, unless it is known.
pub open spec fn with_order(progress: AggregateProgress, digest: Seq<char>) -> Seq<Seq<char>> {
    if progress.layers_view().contains_key(digest) {
        progress.order_view()
    } else {
        progress.order_view().push(digest)
    }
}

/// What is known of a layer.
pub open spec fn touched(progress: AggregateProgress, digest: Seq<char>) -> LayerView {
    if progress.layers_view().contains_key(digest) {
        progress.layers_view()[digest]
    } else {
        new_layer()
    }
}

/// A layer of which more bytes arrived.
pub open spec fn advanced(layer: LayerView, amount: u64) -> LayerView {
    let position = least(layer.position + amount, layer.total as int) as u64;
    LayerView {
        total: layer.total,
        position,
        state: if layer.total > 0 && position >= layer.total {
            AggregateLayerState::Complete
        } else {
            AggregateLayerState::Downloading
        },
        status: Some("Pulling"@),
    }
}

/// Whether something is shown: it is new, and the time has come.
pub open spec fn is_shown(progress: AggregateProgress, force: bool, now: Delay) -> bool {
    progress.shown() != Some(progress.current()) && (force || progress.shown_at() is None
        || now.total() - progress.shown_at()->0.total() >= RENDER_INTERVAL_MS * 1_000_000)
}

/// The layers of a list, as text.
pub open spec fn listed_view(layers: Seq<AggregateLayer>) -> Seq<LayerView> {
    layers.map_values(|l: AggregateLayer| l@)
}

/// The sum of two amounts, up to a limit.
fn capped_sum(a: u64, b: u64, limit: u64) -> (r: u64)
    ensures
        r == least(a + b, limit as int),
{
    if a > limit || b > limit - a {
        limit
    } else {
        a + b
    }
}

/// The bytes of some layers are no more than those of all.
proof fn lemma_sums_grow(layers: Seq<LayerView>, n: int)
    requires
        0 <= n <= layers.len(),
    ensures
        total_bytes(layers.take(n)) <= total_bytes(layers),
        total_position(layers.take(n)) <= total_position(layers),
    decreases layers.len() - n,
{
    if n < layers.len() {
        lemma_sums_grow(layers, n + 1);
        assert(layers.take(n + 1).drop_last() =~= layers.take(n));
    } else {
        assert(layers.take(n) =~= layers);
    }
}

/// Whether two renderings are the same.
fn same_render(a: &AggregateRender, b: &AggregateRender) -> (r: bool)
    ensures
        r == (a@ == b@),
{
    if !text::same(a.strip.as_str(), b.strip.as_str()) || a.total_bytes != b.total_bytes
        || a.position != b.position || a.hide_bytes != b.hide_bytes || a.completed_layers
        != b.completed_layers || a.total_layers != b.total_layers || !text::same(
        a.status.as_str(),
        b.status.as_str(),
    ) || a.strip_states.len() != b.strip_states.len() {
        return false;
    }
    let mut i: usize = 0;
    while i < a.strip_states.len()
        invariant
            i <= a.strip_states@.len(),
            a.strip_states@.len() == b.strip_states@.len(),
            forall|j: int| 0 <= j < i ==> a.strip_states@[j] == b.strip_states@[j],
        decreases a.strip_states@.len() - i,
    {
        if a.strip_states[i] != b.strip_states[i] {
            assert(a@.strip_states[i as int] != b@.strip_states[i as int]);
            return false;
        }
        i += 1;
    }
    assert(a.strip_states@ =~= b.strip_states@);
    true
}

/// A copy of a rendering.
fn copy_render(render: &AggregateRender) -> (r: AggregateRender)
    ensures
        r@ == render@,
{
    let mut strip_states: Vec<AggregateLayerState> = Vec::new();
    let mut i: usize = 0;
    while i < render.strip_states.len()
        invariant
            i <= render.strip_states@.len(),
            strip_states@ == render.strip_states@.take(i as int),
        decreases render.strip_states@.len() - i,
    {
        strip_states.push(render.strip_states[i]);
        assert(render.strip_states@.take(i + 1) =~= render.strip_states@.take(i as int).push(
            render.strip_states@[i as int],
        ));
        i += 1;
    }
    assert(strip_states@ =~= render.strip_states@);
    AggregateRender {
        strip: render.strip.clone(),
        strip_states,
        total_bytes: render.total_bytes,
        position: render.position,
        hide_bytes: render.hide_bytes,
        completed_layers: render.completed_layers,
        total_layers: render.total_layers,
        status: render.status.clone(),
    }
}

/// The status of an image.
fn aggregate_status(layers: &Vec<AggregateLayer>) -> (s: String)
    ensures
        s@ == status_view(listed_view(layers@), false, None),
{
    let ghost all = listed_view(layers@);
    assert(all.skip(0) =~= all);
    let mut incomplete = false;
    let mut complete: Option<String> = None;
    let mut i: usize = 0;
    while i < layers.len()
        invariant
            i <= layers@.len(),
            all == listed_view(layers@),
            status_view(all, false, None) == status_view(
                all.skip(i as int),
                incomplete,
                opt_string(complete),
            ),
        decreases layers@.len() - i,
    {
        assert(all.skip(i as int).skip(1) =~= all.skip(i + 1));
        assert(all.skip(i as int)[0] == layers@[i as int]@);
        match layers[i].state {
            AggregateLayerState::Complete => {
                if let Some(status) = &layers[i].status {
                    complete = Some(status.clone());
                }
            },
            AggregateLayerState::Waiting => {
                if let Some(status) = &layers[i].status {
                    return status.clone();
                }
                incomplete = true;
            },
            AggregateLayerState::Downloading => {
                if let Some(status) = &layers[i].status {
                    if !text::same(status.as_str(), "Pulling") {
                        return status.clone();
                    }
                }
                incomplete = true;
            },
        }
        i += 1;
    }
    if incomplete {
        return "Pulling".to_owned();
    }
    match complete {
        Some(status) => status,
        None => "Pulling".to_owned(),
    }
}

/// What there is to show of the progress of an image.
pub fn aggregate_render(aggregate: &AggregateProgress) -> (r: AggregateRender)
    requires
        aggregate.fits(),
    ensures
        r@ == aggregate.current(),
{
    let layers = aggregate.listed();
    let ghost all = listed_view(layers@);
    let ghost chars = all.map_values(|l: LayerView| progress_char(l));
    let ghost states = all.map_values(|l: LayerView| l.state);
    assert(all.take(0) =~= Seq::<LayerView>::empty());
    let mut strip: Vec<char> = Vec::new();
    let mut strip_states: Vec<AggregateLayerState> = Vec::new();
    let mut total: u64 = 0;
    let mut position: u64 = 0;
    let mut hide_bytes = false;
    let mut completed: usize = 0;
    let mut i: usize = 0;
    while i < layers.len()
        invariant
            i <= layers@.len(),
            all == listed_view(layers@),
            all == aggregate.in_order(),
            aggregate.fits(),
            chars == all.map_values(|l: LayerView| progress_char(l)),
            states == all.map_values(|l: LayerView| l.state),
            strip@ == chars.take(i as int),
            strip_states@ == states.take(i as int),
            total == total_bytes(all.take(i as int)),
            position == total_position(all.take(i as int)),
            hide_bytes == has_unknown_size(all.take(i as int)),
            completed == complete_count(all.take(i as int)),
            completed <= i,
        decreases layers@.len() - i,
    {
        let ghost taken = all.take(i as int);
        let ghost next = all.take(i + 1);
        proof {
            assert(next.drop_last() =~= taken);
            assert(next.last() == layers@[i as int]@);
            lemma_sums_grow(all, i + 1);
            assert(chars.take(i + 1) =~= chars.take(i as int).push(
                progress_char(layers@[i as int]@),
            ));
            assert(states.take(i + 1) =~= states.take(i as int).push(layers@[i as int].state));
        }
        total = total + layers[i].total;
        position = position + layers[i].position;
        let here = !matches!(layers[i].state, AggregateLayerState::Complete) && layers[i].total
            == 0;
        proof {
            if has_unknown_size(taken) {
                let k = choose|k: int|
                    0 <= k < taken.len() && (#[trigger] taken[k]).state
                        != AggregateLayerState::Complete && taken[k].total == 0;
                assert(next[k] == taken[k]);
            }
            if here {
                assert(next[i as int].total == 0);
            }
            if has_unknown_size(next) {
                let k = choose|k: int|
                    0 <= k < next.len() && (#[trigger] next[k]).state
                        != AggregateLayerState::Complete && next[k].total == 0;
                if k < i {
                    assert(taken[k] == next[k]);
                }
            }
        }
        if here {
            hide_bytes = true;
        }
        if matches!(layers[i].state, AggregateLayerState::Complete) {
            completed = completed + 1;
        }
        strip.push(layer_progress_char(&layers[i]));
        strip_states.push(layers[i].state);
        i += 1;
    }
    assert(all.take(i as int) =~= all);
    assert(chars.take(i as int) =~= chars);
    assert(states.take(i as int) =~= states);
    let status = aggregate_status(&layers);
    AggregateRender {
        strip: text::string_of(strip.as_slice()),
        strip_states,
        total_bytes: total,
        position,
        hide_bytes,
        completed_layers: completed,
        total_layers: aggregate.order.len(),
        status,
    }
}

/// The style of a character of a strip.
pub open spec fn cell_style(state: AggregateLayerState) -> Style {
    match state {
        AggregateLayerState::Waiting => Style::Dim,
        AggregateLayerState::Downloading => Style::Green,
        AggregateLayerState::Complete => Style::Green,
    }
}

/// A strip with the style of each character.
pub open spec fn painted_strip(
    strip: Seq<char>,
    states: Seq<AggregateLayerState>,
    color: bool,
    n: nat,
) -> Seq<char>
    decreases n,
{
    if n == 0 {
        seq![]
    } else {
        painted_strip(strip, states, color, (n - 1) as nat) + painted(
            seq![strip[n - 1]],
            cell_style(states[n - 1]),
            color,
        )
    }
}

/// The lesser of two lengths.
pub open spec fn shorter(a: nat, b: nat) -> nat {
    if a < b {
        a
    } else {
        b
    }
}

/// Puts each character of a strip in the style of its layer.
pub fn paint_aggregate_strip(strip: &str, states: &Vec<AggregateLayerState>, color: bool) -> (s:
    String)
    ensures
        s@ == painted_strip(strip@, states@, color, shorter(strip@.len(), states@.len())),
{
    let v = text::chars_of(strip);
    let mut s = "".to_owned();
    proof {
        reveal_strlit("");
    }
    assert(s@ =~= Seq::<char>::empty());
    let mut i: usize = 0;
    while i < v.len() && i < states.len()
        invariant
            i <= v@.len(),
            i <= states@.len(),
            v@ == strip@,
            s@ == painted_strip(strip@, states@, color, i as nat),
        decreases v@.len() - i,
    {
        let mut cell: Vec<char> = Vec::new();
        cell.push(v[i]);
        let style = match states[i] {
            AggregateLayerState::Waiting => Style::Dim,
            AggregateLayerState::Downloading => Style::Green,
            AggregateLayerState::Complete => Style::Green,
        };
        let shown = text::string_of(cell.as_slice());
        assert(shown@ =~= seq![strip@[i as int]]);
        s.append(paint(shown.as_str(), style, color).as_str());
        i += 1;
    }
    s
}

/// The line that shows the progress of an image.
pub open spec fn progress_line(image: Seq<char>, render: RenderView, color: bool) -> Seq<char> {
    image + " ["@ + painted_strip(
        render.strip,
        render.strip_states,
        color,
        shorter(render.strip.len(), render.strip_states.len()),
    ) + "]"@ + " "@ + text::decimal_view(render.completed_layers as nat) + "/"@
        + text::decimal_view(render.total_layers as nat) + " layers"@ + (if render.total_bytes > 0
        && !render.hide_bytes {
        " "@ + bytes_text(least(render.position, render.total_bytes) as u64) + " / "@ + bytes_text(
            render.total_bytes as u64,
        )
    } else {
        seq![]
    }) + " "@ + render.status
}

/// Shows the progress of an image in a line.
pub fn aggregate_message(image: &str, render: &AggregateRender, color: bool) -> (s: String)
    ensures
        s@ == progress_line(image@, render@, color),
{
    let mut s = concat3(
        image,
        " [",
        paint_aggregate_strip(render.strip.as_str(), &render.strip_states, color).as_str(),
    );
    s.append("]");
    s.append(" ");
    s.append(text::decimal(render.completed_layers as u64).as_str());
    s.append("/");
    s.append(text::decimal(render.total_layers as u64).as_str());
    s.append(" layers");
    if render.total_bytes > 0 && !render.hide_bytes {
        let shown = if render.position < render.total_bytes {
            render.position
        } else {
            render.total_bytes
        };
        let ghost before = s@;
        s.append(" ");
        s.append(format_bytes(shown).as_str());
        s.append(" / ");
        s.append(format_bytes(render.total_bytes).as_str());
        assert(s@ =~= before + (" "@ + bytes_text(shown) + " / "@ + bytes_text(
            render.total_bytes,
        )));
    } else {
        assert(s@ + Seq::<char>::empty() =~= s@);
    }
    s.append(" ");
    s.append(render.status.as_str());
    s
}

/// How a single layer is shown.
#[derive(Debug, Clone, Copy, PartialEq, Eq, Structural)]
pub struct LayerRender {
    pub total: u64,
    pub position: u64,
    pub last_rendered_at: Option<Delay>,
}

/// What follows from bytes that arrived for a layer.
#[derive(Debug, Clone, Copy, PartialEq, Eq, Structural)]
pub enum LayerRenderAdvance {
    /// The position is shown.
    Render(u64),
    /// It is too soon to show it.
    Throttled,
    /// The layer is not shown.
    Missing,
}

/// How the layers of an image are shown, one by one.
pub struct LayerRenders {
    renders: StringHashMap<LayerRender>,
}

/// A rendering that took more bytes.
pub open spec fn render_advanced(render: LayerRender, amount: u64) -> u64 {
    least(render.position + amount, render.total as int) as u64
}

/// Whether it is too soon to show a layer again.
pub open spec fn too_soon(render: LayerRender, now: Delay) -> bool {
    render.last_rendered_at matches Some(at) && now.total() - at.total() < RENDER_INTERVAL_MS
        * 1_000_000
}

impl View for LayerRenders {
    type V = Map<Seq<char>, LayerRender>;

    closed spec fn view(&self) -> Map<Seq<char>, LayerRender> {
        self.renders@
    }
}

impl LayerRenders {
    /// Whether times are readings of a clock.
    pub open spec fn wf(self) -> bool {
        forall|d: Seq<char>| #[trigger]
            self@.contains_key(d) ==> (self@[d].last_rendered_at matches Some(at) ==> at.wf())
    }

    /// Nothing is shown.
    pub fn new() -> (r: LayerRenders)
        ensures
            r@ == Map::<Seq<char>, LayerRender>::empty(),
            r.wf(),
    {
        LayerRenders { renders: StringHashMap::new() }
    }

    /// A layer is shown from now on.
    pub fn start(&mut self, digest: &str, total: u64, position: u64, now: Delay)
        requires
            old(self).wf(),
            now.wf(),
        ensures
            final(self).wf(),
            final(self)@ == old(self)@.insert(
                digest@,
                LayerRender {
                    total,
                    position: least(position as int, total as int) as u64,
                    last_rendered_at: Some(now),
                },
            ),
    {
        let shown = if position < total {
            position
        } else {
            total
        };
        self.renders.insert(
            digest.to_owned(),
            LayerRender { total, position: shown, last_rendered_at: Some(now) },
        );
    }

    /// Bytes arrived for a layer. They are counted in any case, and shown if it is not too soon.
    pub fn advance(&mut self, digest: &str, amount: u64, now: Delay) -> (r: LayerRenderAdvance)
        requires
            old(self).wf(),
            now.wf(),
        ensures
            final(self).wf(),
            if !old(self)@.contains_key(digest@) {
                r == LayerRenderAdvance::Missing && final(self)@ == old(self)@
            } else {
                let before = old(self)@[digest@];
                let position = render_advanced(before, amount);
                if too_soon(before, now) {
                    r == LayerRenderAdvance::Throttled && final(self)@ == old(self)@.insert(
                        digest@,
                        LayerRender {
                            total: before.total,
                            position,
                            last_rendered_at: before.last_rendered_at,
                        },
                    )
                } else {
                    r == LayerRenderAdvance::Render(position) && final(self)@ == old(self)@.insert(
                        digest@,
                        LayerRender {
                            total: before.total,
                            position,
                            last_rendered_at: Some(now),
                        },
                    )
                }
            },
    {
        let before = match self.renders.get(digest) {
            None => {
                return LayerRenderAdvance::Missing;
            },
            Some(render) => *render,
        };
        let position = capped_sum(before.position, amount, before.total);
        if let Some(at) = before.last_rendered_at {
            let elapsed = now.saturating_sub(at);
            if elapsed.less(Delay::from_millis(RENDER_INTERVAL_MS)) {
                self.renders.insert(
                    digest.to_owned(),
                    LayerRender {
                        total: before.total,
                        position,
                        last_rendered_at: before.last_rendered_at,
                    },
                );
                return LayerRenderAdvance::Throttled;
            }
        }
        self.renders.insert(
            digest.to_owned(),
            LayerRender { total: before.total, position, last_rendered_at: Some(now) },
        );
        LayerRenderAdvance::Render(position)
    }

    /// The position of a layer is shown now.
    pub fn flush(&mut self, digest: &str, now: Delay) -> (r: Option<u64>)
        requires
            old(self).wf(),
            now.wf(),
        ensures
            final(self).wf(),
            if !old(self)@.contains_key(digest@) {
                r is None && final(self)@ == old(self)@
            } else {
                let before = old(self)@[digest@];
                r == Some(before.position) && final(self)@ == old(self)@.insert(
                    digest@,
                    LayerRender {
                        total: before.total,
                        position: before.position,
                        last_rendered_at: Some(now),
                    },
                )
            },
    {
        let before = match self.renders.get(digest) {
            None => {
                return None;
            },
            Some(render) => *render,
        };
        self.renders.insert(
            digest.to_owned(),
            LayerRender {
                total: before.total,
                position: before.position,
                last_rendered_at: Some(now),
            },
        );
        Some(before.position)
    }

    /// A layer is not shown any more. The result is its last position, the end where that is known.
    pub fn finish(&mut self, digest: &str) -> (r: Option<u64>)
        requires
            old(self).wf(),
        ensures
            final(self).wf(),
            if !old(self)@.contains_key(digest@) {
                r is None && final(self)@ == old(self)@
            } else {
                let before = old(self)@[digest@];
                r == Some(
                    if before.total > 0 {
                        before.total
                    } else {
                        before.position
                    },
                ) && final(self)@ == old(self)@.remove(digest@)
            },
    {
        let before = match self.renders.get(digest) {
            None => {
                return None;
            },
            Some(render) => *render,
        };
        self.renders.remove(digest);
        if before.total > 0 {
            Some(before.total)
        } else {
            Some(before.position)
        }
    }
}

/// However fast bytes arrive, a layer is shown at most once in an interval, and none of the bytes
/// is lost from the count.
pub proof fn law_throttling_loses_no_bytes(
    render: LayerRender,
    first: u64,
    second: u64,
)
    requires
        render.position <= render.total,
        first + second <= u64::MAX,
    ensures
        render_advanced(
            LayerRender {
                total: render.total,
                position: render_advanced(render, first),
                last_rendered_at: render.last_rendered_at,
            },
            second,
        ) == render_advanced(render, (first + second) as u64),
{
}

/// The status of an image is its last complete layer's only where every layer is complete.
pub proof fn law_an_unfinished_image_is_pulling(layers: Seq<LayerView>, i: int)
    requires
        0 <= i < layers.len(),
        layers[i].state != AggregateLayerState::Complete,
        forall|j: int| 0 <= j < layers.len() ==> !speaks_for_all(#[trigger] layers[j]),
    ensures
        status_view(layers, false, None) == "Pulling"@,
{
    lemma_unfinished(layers, i, false, None);
}

proof fn lemma_unfinished(
    layers: Seq<LayerView>,
    i: int,
    incomplete: bool,
    complete: Option<Seq<char>>,
)
    requires
        incomplete || (0 <= i < layers.len() && layers[i].state != AggregateLayerState::Complete),
        forall|j: int| 0 <= j < layers.len() ==> !speaks_for_all(#[trigger] layers[j]),
    ensures
        status_view(layers, incomplete, complete) == "Pulling"@,
    decreases layers.len(),
{
    if layers.len() > 0 {
        assert(!speaks_for_all(layers[0]));
        let rest = layers.skip(1);
        assert forall|j: int| 0 <= j < rest.len() implies !speaks_for_all(#[trigger] rest[j]) by {
            assert(rest[j] == layers[j + 1]);
        }
        if !incomplete && i > 0 {
            assert(rest[i - 1] == layers[i]);
        }
        if layers[0].state == AggregateLayerState::Complete {
            lemma_unfinished(
                rest,
                i - 1,
                incomplete,
                if layers[0].status is Some {
                    layers[0].status
                } else {
                    complete
                },
            );
        } else {
            lemma_unfinished(rest, i - 1, true, complete);
        }
    }
}

/// A style stands around a text, which is shown plain where styles are not shown.
pub proof fn law_a_style_stands_around_its_text(value: Seq<char>)
    ensures
        painted(value, Style::Green, true) == "\u{1b}[32m"@ + value + "\u{1b}[0m"@,
        painted(value, Style::Yellow, true) == "\u{1b}[33m"@ + value + "\u{1b}[0m"@,
        painted(value, Style::Warning, true) == "\u{1b}[1m\u{1b}[33m"@ + value + "\u{1b}[0m"@,
        painted(value, Style::Cyan, true) == "\u{1b}[36m"@ + value + "\u{1b}[0m"@,
        painted(value, Style::Dim, true) == "\u{1b}[2m"@ + value + "\u{1b}[0m"@,
        forall|style: Style| #[trigger] painted(value, style, false) == value,
{
}

/// A digest is shown by the first twelve digits of its value.
pub proof fn law_a_digest_is_cut_short(algorithm: Seq<char>, value: Seq<char>)
    requires
        !algorithm.contains(':'),
    ensures
        value.len() >= 12 ==> short_digest_view(algorithm + ":"@ + value) == value.take(12),
        value.len() < 12 ==> short_digest_view(algorithm + ":"@ + value) == value,
{
    reveal_strlit(":");
    text::lemma_split_once_at(algorithm, ':', value);
    assert(algorithm + ":"@ + value =~= algorithm + seq![':'] + value);
    if value.len() == 12 {
        assert(value.take(12) =~= value);
    }
}

/// A process is in the foreground where it has no terminal, or where its group is the one that the
/// terminal has in the foreground; the name of the program, which may hold anything, does not
/// count.
pub proof fn law_the_foreground_is_told_by_the_group(
    start: Seq<char>,
    rest: Seq<char>,
    group: int,
    tty: int,
    foreground: int,
)
    requires
        forall|i: int| 0 <= i < rest.len() ==> #[trigger] rest[i] != ')',
        text::words_view(rest).len() >= 6,
        text::parse_signed_view(text::words_view(rest)[2], i32::MIN as int, i32::MAX as int)
            == Some(group),
        text::parse_signed_view(text::words_view(rest)[4], i32::MIN as int, i32::MAX as int)
            == Some(tty),
        text::parse_signed_view(text::words_view(rest)[5], i32::MIN as int, i32::MAX as int)
            == Some(foreground),
    ensures
        foreground_view(start + ") "@ + rest) == Some(tty == 0 || group == foreground),
        foreground_view(rest) is None,
{
    lemma_last_bracket(start, rest);
}

/// Behind the last bracket stands what holds none.
proof fn lemma_last_bracket(start: Seq<char>, rest: Seq<char>)
    requires
        forall|i: int| 0 <= i < rest.len() ==> #[trigger] rest[i] != ')',
    ensures
        text::rsplit_once_text(start + ") "@ + rest, ") "@) == Some((start, rest)),
        text::rsplit_once_text(rest, ") "@) is None,
{
    reveal_strlit(") ");
    let p = ") "@;
    let s = start + p + rest;
    let n = start.len() as int;
    assert(p[0] == ')' && p[1] == ' ' && p.len() == 2);
    assert(text::occurs_at(s, p, n)) by {
        assert(s.subrange(n, n + 2) =~= p);
    }
    text::lemma_rfind_text(s, p);
    let at = text::rfind_text(s, p);
    assert(at is Some && at->0 >= n);
    assert(s[at->0] == ')') by {
        assert(s.subrange(at->0, at->0 + 2)[0] == s[at->0]);
    }
    if at->0 == n + 1 {
        assert(s[n + 1] == p[1]);
    } else if at->0 > n + 1 {
        assert(rest[at->0 - n - 2] == s[at->0]);
    }
    assert(s.take(n) =~= start);
    assert(s.skip(n + 2) =~= rest);
    text::lemma_rfind_text(rest, p);
    let other = text::rfind_text(rest, p);
    if other is Some {
        assert(rest.subrange(other->0, other->0 + 2)[0] == rest[other->0]);
    }
}

/// A layer that waits is blank, a complete one is full, and one that is downloaded is filled by the
/// eighths that its whole percents reach.
pub proof fn law_a_layer_is_as_full_as_it_is_far(layer: LayerView, percent: int)
    ensures
        layer.state == AggregateLayerState::Waiting ==> progress_char(layer) == ' ',
        layer.state == AggregateLayerState::Complete ==> progress_char(layer) == '⣿',
        layer.state == AggregateLayerState::Downloading ==> {
            let c = progress_char(layer);
            &&& layer.total == 0 ==> c == '⠀'
            &&& layer.total > 0 && layer.position * 100 <= u64::MAX && percent * layer.total
                <= layer.position * 100 < (percent + 1) * layer.total ==> {
                &&& percent <= 12 ==> c == '⠀'
                &&& 12 < percent < 25 ==> c == '⡀'
                &&& 25 <= percent <= 37 ==> c == '⣀'
                &&& 37 < percent < 50 ==> c == '⣄'
                &&& 50 <= percent <= 62 ==> c == '⣤'
                &&& 62 < percent < 75 ==> c == '⣦'
                &&& 75 <= percent <= 87 ==> c == '⣶'
                &&& 87 < percent < 100 ==> c == '⣷'
                &&& 100 <= percent ==> c == '⣿'
            }
        },
{
    if layer.total > 0 {
        let n = layer.position * 100;
        let d = layer.total as int;
        if percent * d <= n < (percent + 1) * d {
            assert(n / d == percent) by (nonlinear_arith)
                requires
                    d > 0,
                    percent * d <= n < (percent + 1) * d,
            ;
        }
    }
}

/// A status that tells of completion makes a layer complete whatever else it says; one that only
/// waits is waiting; and what is pulled is downloaded.
pub proof fn law_a_status_tells_the_state(before: Seq<char>, after: Seq<char>)
    ensures
        state_for(before + "Pull complete"@ + after) == AggregateLayerState::Complete,
        state_for(before + "Already exists"@ + after) == AggregateLayerState::Complete,
        state_for("Waiting"@) == AggregateLayerState::Waiting,
        state_for("Pulling"@) == AggregateLayerState::Downloading,
{
    lemma_stands_inside(before, "Pull complete"@, after);
    lemma_stands_inside(before, "Already exists"@, after);
    reveal_strlit("Pull complete");
    reveal_strlit("Already exists");
    reveal_strlit("Waiting");
    reveal_strlit("Pulling");
    let wait = "Waiting"@;
    let pull = "Pulling"@;
    assert(wait.len() == 7 && pull.len() == 7 && "Pull complete"@.len() == 13
        && "Already exists"@.len() == 14);
    lemma_stands_inside(Seq::empty(), wait, Seq::empty());
    assert(Seq::empty() + wait + Seq::empty() =~= wait);
    assert(wait[0] == 'W' && pull[0] == 'P');
    if text::contains_text(pull, wait) {
        let i = choose|i: int| text::occurs_at(pull, wait, i);
        assert(i == 0);
        assert(pull.subrange(0, 7)[0] == pull[0]);
    }
}

/// A text occurs where it stands between two others.
proof fn lemma_stands_inside(before: Seq<char>, text: Seq<char>, after: Seq<char>)
    ensures
        text::contains_text(before + text + after, text),
{
    let s = before + text + after;
    let n = before.len() as int;
    assert(s.subrange(n, n + text.len()) =~= text);
    assert(text::occurs_at(s, text, n));
}

/// What is shown of layers has a character, a state and a share in the sums for each of them.
pub proof fn law_each_layer_has_its_share(
    layers: Seq<LayerView>,
    layer: LayerView,
    total_layers: int,
)
    ensures
        ({
            let before = render_view(layers, total_layers);
            let after = render_view(layers.push(layer), total_layers);
            &&& after.strip == before.strip.push(progress_char(layer))
            &&& after.strip_states == before.strip_states.push(layer.state)
            &&& after.total_bytes == before.total_bytes + layer.total
            &&& after.position == before.position + layer.position
            &&& after.completed_layers == before.completed_layers + (if layer.state
                == AggregateLayerState::Complete {
                1int
            } else {
                0
            })
            &&& after.hide_bytes <==> before.hide_bytes || (layer.total == 0 && layer.state
                != AggregateLayerState::Complete)
            &&& after.total_layers == total_layers
        }),
        render_view(seq![], total_layers).total_bytes == 0,
        render_view(seq![], total_layers).position == 0,
        render_view(seq![], total_layers).completed_layers == 0,
        !render_view(seq![], total_layers).hide_bytes,
{
    let all = layers.push(layer);
    assert(all.drop_last() =~= layers);
    let before = render_view(layers, total_layers);
    let after = render_view(all, total_layers);
    assert(after.strip =~= before.strip.push(progress_char(layer)));
    assert(after.strip_states =~= before.strip_states.push(layer.state));
    if before.hide_bytes {
        let i = choose|i: int|
            0 <= i < layers.len() && (#[trigger] layers[i]).state != AggregateLayerState::Complete
                && layers[i].total == 0;
        assert(all[i] == layers[i]);
    }
    if layer.total == 0 && layer.state != AggregateLayerState::Complete {
        assert(all[layers.len() as int] == layer);
    }
    if after.hide_bytes {
        let i = choose|i: int|
            0 <= i < all.len() && (#[trigger] all[i]).state != AggregateLayerState::Complete
                && all[i].total == 0;
        if i < layers.len() {
            assert(layers[i] == all[i]);
        }
    }
}

/// The status of an image is that of its first layer that waits or does more than to be pulled.
pub proof fn law_the_first_busy_layer_speaks(layers: Seq<LayerView>, i: int, status: Seq<char>)
    requires
        0 <= i < layers.len(),
        layers[i].status == Some(status),
        layers[i].state == AggregateLayerState::Waiting || (layers[i].state
            == AggregateLayerState::Downloading && status != "Pulling"@),
        forall|j: int|
            0 <= j < i ==> (#[trigger] layers[j]).state == AggregateLayerState::Complete
                || layers[j].status is None || (layers[j].state == AggregateLayerState::Downloading
                && layers[j].status == Some("Pulling"@)),
    ensures
        status_view(layers, false, None) == status,
{
    lemma_speaks(layers, i, status, false, None);
}

proof fn lemma_speaks(
    layers: Seq<LayerView>,
    i: int,
    status: Seq<char>,
    incomplete: bool,
    complete: Option<Seq<char>>,
)
    requires
        0 <= i < layers.len(),
        layers[i].status == Some(status),
        layers[i].state == AggregateLayerState::Waiting || (layers[i].state
            == AggregateLayerState::Downloading && status != "Pulling"@),
        forall|j: int|
            0 <= j < i ==> (#[trigger] layers[j]).state == AggregateLayerState::Complete
                || layers[j].status is None || (layers[j].state == AggregateLayerState::Downloading
                && layers[j].status == Some("Pulling"@)),
    ensures
        status_view(layers, incomplete, complete) == status,
    decreases layers.len(),
{
    if i > 0 {
        let rest = layers.skip(1);
        assert(layers[0].state == AggregateLayerState::Complete || layers[0].status is None || (
        layers[0].state == AggregateLayerState::Downloading && layers[0].status == Some(
            "Pulling"@,
        )));
        assert(rest[i - 1] == layers[i]);
        assert forall|j: int| 0 <= j < i - 1 implies (#[trigger] rest[j]).state
            == AggregateLayerState::Complete || rest[j].status is None || (rest[j].state
            == AggregateLayerState::Downloading && rest[j].status == Some("Pulling"@)) by {
            assert(rest[j] == layers[j + 1]);
        }
        if layers[0].state == AggregateLayerState::Complete {
            lemma_speaks(
                rest,
                i - 1,
                status,
                incomplete,
                if layers[0].status is Some {
                    layers[0].status
                } else {
                    complete
                },
            );
        } else {
            lemma_speaks(rest, i - 1, status, true, complete);
        }
    }
}

/// An image whose layers are all complete has the status of the last of them that has one.
pub proof fn law_the_last_complete_layer_speaks(
    before: Seq<LayerView>,
    layer: LayerView,
    status: Seq<char>,
)
    requires
        forall|j: int|
            0 <= j < before.len() ==> (#[trigger] before[j]).state == AggregateLayerState::Complete,
        layer.state == AggregateLayerState::Complete,
        layer.status == Some(status),
    ensures
        status_view(before.push(layer), false, None) == status,
{
    lemma_last_complete(before, layer, status, None);
}

proof fn lemma_last_complete(
    before: Seq<LayerView>,
    layer: LayerView,
    status: Seq<char>,
    complete: Option<Seq<char>>,
)
    requires
        forall|j: int|
            0 <= j < before.len() ==> (#[trigger] before[j]).state == AggregateLayerState::Complete,
        layer.state == AggregateLayerState::Complete,
        layer.status == Some(status),
    ensures
        status_view(before.push(layer), false, complete) == status,
    decreases before.len(),
{
    let all = before.push(layer);
    if before.len() == 0 {
        assert(all[0] == layer);
        assert(all.skip(1) =~= Seq::<LayerView>::empty());
        assert(status_view(Seq::<LayerView>::empty(), false, Some(status)) == status);
    } else {
        let rest = before.skip(1);
        assert(before[0].state == AggregateLayerState::Complete);
        assert forall|j: int| 0 <= j < rest.len() implies (#[trigger] rest[j]).state
            == AggregateLayerState::Complete by {
            assert(rest[j] == before[j + 1]);
        }
        assert(all.skip(1) =~= rest.push(layer));
        assert(all[0] == before[0]);
        lemma_last_complete(
            rest,
            layer,
            status,
            if before[0].status is Some {
                before[0].status
            } else {
                complete
            },
        );
    }
}

/// Bytes that arrive move a layer on, never beyond its end; it is complete with the last of them,
/// and however they are cut they lead to the same place.
pub proof fn law_a_layer_moves_on_to_its_end(layer: LayerView, first: u64, second: u64)
    requires
        layer.position <= layer.total,
        first + second <= u64::MAX,
    ensures
        ({
            let after = advanced(layer, first);
            &&& after.total == layer.total
            &&& layer.position <= after.position <= layer.total
            &&& layer.position + first <= layer.total ==> after.position == layer.position + first
            &&& layer.position + first > layer.total ==> after.position == layer.total
            &&& after.state == AggregateLayerState::Complete <==> layer.total > 0 && layer.position
                + first >= layer.total
            &&& after.state != AggregateLayerState::Complete ==> after.state
                == AggregateLayerState::Downloading
            &&& after.status == Some("Pulling"@)
            &&& advanced(after, second) == advanced(layer, (first + second) as u64)
        }),
{
}

/// The layers are shown in their order, and those that are not known are left out.
pub proof fn law_layers_are_shown_in_their_order(
    order: Seq<Seq<char>>,
    digest: Seq<char>,
    layers: Map<Seq<char>, LayerView>,
)
    ensures
        ordered_layers(Seq::<Seq<char>>::empty(), layers) == Seq::<LayerView>::empty(),
        layers.contains_key(digest) ==> ordered_layers(order.push(digest), layers)
            == ordered_layers(order, layers).push(layers[digest]),
        !layers.contains_key(digest) ==> ordered_layers(order.push(digest), layers)
            == ordered_layers(order, layers),
{
    assert(order.push(digest).drop_last() =~= order);
}

/// Something is shown only where it is new; in time it is shown where nothing was, where it is
/// forced, and a tenth of a second after what was shown last.
pub proof fn law_what_is_new_is_shown_in_time(
    progress: AggregateProgress,
    force: bool,
    now: Delay,
    last: Delay,
)
    ensures
        progress.shown() == Some(progress.current()) ==> !is_shown(progress, force, now),
        progress.shown() is None ==> is_shown(progress, true, now),
        progress.shown() is None && progress.shown_at() is None ==> is_shown(progress, force, now),
        progress.shown() != Some(progress.current()) && progress.shown_at() == Some(last) ==> (
        is_shown(progress, false, now) <==> now.total() - last.total() >= RENDER_INTERVAL_MS
            * 1_000_000) && is_shown(progress, true, now),
{
}

/// Without styles a strip is shown as it is.
proof fn lemma_plain_strip(strip: Seq<char>, states: Seq<AggregateLayerState>, n: nat)
    requires
        n <= strip.len(),
    ensures
        painted_strip(strip, states, false, n) == strip.take(n as int),
    decreases n,
{
    if n > 0 {
        lemma_plain_strip(strip, states, (n - 1) as nat);
        assert(strip.take(n as int) =~= strip.take(n - 1) + seq![strip[n - 1]]);
    }
}

/// The line of an image names it, shows its strip, counts its layers and, where all sizes are
/// known, its bytes, and ends with its status.
pub proof fn law_a_line_shows_the_progress(image: Seq<char>, render: RenderView)
    requires
        render.strip.len() == render.strip_states.len(),
    ensures
        ({
            let start = image + " ["@ + render.strip + "] "@ + text::decimal_view(
                render.completed_layers as nat,
            ) + "/"@ + text::decimal_view(render.total_layers as nat) + " layers "@;
            let line = progress_line(image, render, false);
            &&& render.hide_bytes || render.total_bytes <= 0 ==> line == start + render.status
            &&& !render.hide_bytes && 0 < render.total_bytes && render.position
                <= render.total_bytes ==> line == start + bytes_text(render.position as u64)
                + " / "@ + bytes_text(render.total_bytes as u64) + " "@ + render.status
            &&& !render.hide_bytes && 0 < render.total_bytes && render.position
                > render.total_bytes ==> line == start + bytes_text(render.total_bytes as u64)
                + " / "@ + bytes_text(render.total_bytes as u64) + " "@ + render.status
        }),
{
    lemma_plain_strip(render.strip, render.strip_states, render.strip.len());
    assert(render.strip.take(render.strip.len() as int) =~= render.strip);
    reveal_strlit("] ");
    reveal_strlit("]");
    reveal_strlit(" ");
    reveal_strlit(" layers ");
    reveal_strlit(" layers");
    let a = image + " ["@ + render.strip;
    let done = text::decimal_view(render.completed_layers as nat);
    let all = text::decimal_view(render.total_layers as nat);
    let start = a + "] "@ + done + "/"@ + all + " layers "@;
    let short = a + "]"@ + " "@ + done + "/"@ + all + " layers"@;
    assert(a + "]"@ + " "@ =~= a + "] "@);
    assert(short + " "@ =~= start);
    assert(short + Seq::<char>::empty() + " "@ + render.status =~= start + render.status);
    let shown = bytes_text(least(render.position, render.total_bytes) as u64);
    let of = bytes_text(render.total_bytes as u64);
    assert(short + (" "@ + shown + " / "@ + of) + " "@ + render.status =~= start + shown + " / "@
        + of + " "@ + render.status);
}

/// A layer is shown again when the interval since it was shown last has passed, and its position
/// is what it was and what arrived, up to its size.
pub proof fn law_a_layer_is_shown_again_in_time(render: LayerRender, amount: u64, now: Delay)
    ensures
        render.last_rendered_at is None ==> !too_soon(render, now),
        render.last_rendered_at matches Some(at) ==> (too_soon(render, now) <==> now.total()
            < at.total() + RENDER_INTERVAL_MS * 1_000_000),
        render.position + amount <= render.total ==> render_advanced(render, amount)
            == render.position + amount,
        render.position + amount > render.total ==> render_advanced(render, amount) == render.total,
{
}

} // verus!

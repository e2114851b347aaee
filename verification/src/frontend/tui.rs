//! The terminal frontend: every node is a cell of the character grid, with a
//! position, a size, an optional border and an optional click handler.

use crate::engine::{
    lemma_rendered_views, rendered_views, RenderedEl, RenderedView, StateChange, StateStore,
};
use crate::term::{
    clear_all, clear_all_spec, fg_reset, fg_yellow, goto, goto_spec, hide_cursor,
    hide_cursor_spec, reset_spec, yellow_spec,
};
use vstd::prelude::*;
use vstd::string::StringSliceAdditionalSpecFns;
use vstd::utf8::{
    decode_utf8, encode_utf8, encode_utf8_decode_utf8, encode_utf8_valid_utf8, is_char_boundary,
    valid_utf8,
};

verus! {

/// A place on the grid, counted from one.
pub struct Position {
    pub left: u16,
    pub top: u16,
}

impl Default for Position {
    fn default() -> (position: Self)
        ensures
            position.left == 0,
            position.top == 0,
    {
        Position { left: 0, top: 0 }
    }
}

/// The size of a cell.
pub struct Dimension {
    pub width: u16,
    pub height: u16,
}

impl Default for Dimension {
    fn default() -> (dimension: Self)
        ensures
            dimension.width == 0,
            dimension.height == 0,
    {
        Dimension { width: 0, height: 0 }
    }
}

/// How a cell is decorated.
pub struct Style {
    pub border: bool,
}

impl Default for Style {
    fn default() -> (style: Self)
        ensures
            !style.border,
    {
        Style { border: false }
    }
}

/// What a click on a cell does: it overwrites the state of one component.
pub type MouseClickHandler<S> = StateChange<S>;

/// The change that a handler makes, as the path and the state that it
/// stores there, if there is a handler.
pub open spec fn handler_view<S>(handler: Option<MouseClickHandler<S>>) -> Option<(Seq<char>, S)> {
    match handler {
        Some(change) => Some((change.path@, *change.state)),
        None => None,
    }
}

/// The handlers of a cell.
pub struct EventHandlers<S> {
    pub on_click: Option<MouseClickHandler<S>>,
}

impl<S> Default for EventHandlers<S> {
    fn default() -> (handlers: Self)
        ensures
            handlers.on_click is None,
    {
        EventHandlers { on_click: None }
    }
}

/// The payload of the terminal frontend.
pub struct TUINode<S> {
    pub pos: Position,
    pub dim: Dimension,
    pub style: Style,
    pub text: Option<String>,
    pub disabled: bool,
    pub event_handlers: EventHandlers<S>,
}

/// The mathematical model of a cell.
pub ghost struct TUINodeView<S> {
    pub left: u16,
    pub top: u16,
    pub width: u16,
    pub height: u16,
    pub border: bool,
    pub text: Option<Seq<char>>,
    pub disabled: bool,
    /// The path and the state of the change that a click makes.
    pub on_click: Option<(Seq<char>, S)>,
}

impl<S> View for TUINode<S> {
    type V = TUINodeView<S>;

    open spec fn view(&self) -> TUINodeView<S> {
        TUINodeView {
            left: self.pos.left,
            top: self.pos.top,
            width: self.dim.width,
            height: self.dim.height,
            border: self.style.border,
            text: match self.text {
                Some(t) => Some(t@),
                None => None,
            },
            disabled: self.disabled,
            on_click: handler_view(self.event_handlers.on_click),
        }
    }
}

/// The cell that a new node starts from: one by one at the top left corner,
/// plain, empty, enabled and without a handler.
pub open spec fn default_cell<S>() -> TUINodeView<S> {
    TUINodeView {
        left: 1,
        top: 1,
        width: 1,
        height: 1,
        border: false,
        text: None,
        disabled: false,
        on_click: None,
    }
}

impl<S> Default for TUINode<S> {
    fn default() -> (node: Self)
        ensures
            node@ == default_cell::<S>(),
    {
        TUINode {
            pos: Position { left: 1, top: 1 },
            dim: Dimension { width: 1, height: 1 },
            style: Style { border: false },
            disabled: false,
            text: None,
            event_handlers: EventHandlers { on_click: None },
        }
    }
}

impl<S> TUINode<S> {
    /// The default cell, moved to `left`, `top`.
    pub fn new(left: u16, top: u16) -> (node: TUINode<S>)
        ensures
            node@ == (TUINodeView { left, top, ..default_cell::<S>() }),
    {
        TUINode {
            pos: Position { left, top },
            dim: Dimension { width: 1, height: 1 },
            style: Style { border: false },
            disabled: false,
            text: None,
            event_handlers: EventHandlers { on_click: None },
        }
    }

    /// The node, disabled or enabled.
    pub fn disable(self, dis: bool) -> (node: Self)
        ensures
            node@ == (TUINodeView { disabled: dis, ..self@ }),
    {
        let mut node = self;
        node.disabled = dis;
        node
    }

    /// The node with or without a border.
    pub fn set_border(self, b: bool) -> (node: Self)
        ensures
            node@ == (TUINodeView { border: b, ..self@ }),
    {
        let mut node = self;
        node.style.border = b;
        node
    }

    /// The node with the text `t`, or with none.
    pub fn set_text(self, t: Option<String>) -> (node: Self)
        ensures
            node@ == (TUINodeView {
                text: match t {
                    Some(s) => Some(s@),
                    None => None,
                },
                ..self@
            }),
    {
        let mut node = self;
        node.text = t;
        node
    }

    /// The node with the given size.
    pub fn set_dimension(self, width: u16, height: u16) -> (node: Self)
        ensures
            node@ == (TUINodeView { width, height, ..self@ }),
    {
        let mut node = self;
        node.dim = Dimension { width, height };
        node
    }

    /// The node with the width `w`.
    pub fn set_width(self, w: u16) -> (node: Self)
        ensures
            node@ == (TUINodeView { width: w, ..self@ }),
    {
        let mut node = self;
        node.dim.width = w;
        node
    }

    /// The node with the height `h`.
    pub fn set_height(self, h: u16) -> (node: Self)
        ensures
            node@ == (TUINodeView { height: h, ..self@ }),
    {
        let mut node = self;
        node.dim.height = h;
        node
    }

    /// The node with the click handler `handler`, or with none.
    pub fn set_on_click(self, handler: Option<MouseClickHandler<S>>) -> (node: Self)
        ensures
            node@ == (TUINodeView { on_click: handler_view(handler), ..self@ }),
    {
        let mut node = self;
        node.event_handlers.on_click = handler;
        node
    }
}

/// The upper half block that the top edge of a border is drawn with.
pub open spec fn upper_block() -> Seq<char> {
    seq!['\u{2580}']
}

/// The lower half block that the bottom edge of a border is drawn with.
pub open spec fn lower_block() -> Seq<char> {
    seq!['\u{2584}']
}

/// The full block that the sides of a border are drawn with.
pub open spec fn full_block() -> Seq<char> {
    seq!['\u{2588}']
}

/// `piece` written `n` times.
pub open spec fn repeated(piece: Seq<char>, n: nat) -> Seq<char>
    decreases n,
{
    if n == 0 {
        Seq::empty()
    } else {
        repeated(piece, (n - 1) as nat) + piece
    }
}

/// The text of a cell, empty where it has none.
pub open spec fn shown_text<S>(cell: TUINodeView<S>) -> Seq<char> {
    match cell.text {
        Some(t) => t,
        None => Seq::empty(),
    }
}

/// The room between the two sides of a border.
pub open spec fn inner_width<S>(cell: TUINodeView<S>) -> nat {
    if cell.width >= 2 {
        (cell.width - 2) as nat
    } else {
        0
    }
}

/// Where a text is cut so that at most `width` of its bytes are left: at
/// the last boundary between two characters that is not behind `width`.
pub open spec fn clip_point(text: Seq<char>, width: nat) -> nat
    decreases width,
{
    if width == 0 || is_char_boundary(encode_utf8(text), width as int) {
        width
    } else {
        clip_point(text, (width - 1) as nat)
    }
}

/// The part of `text` that fits into `width` bytes of UTF-8: all of it where
/// it is no longer than that, else its first `width` bytes, and, where that
/// would cut a character in two, the bytes in front of that character.
pub open spec fn clipped(text: Seq<char>, width: nat) -> Seq<char> {
    if encode_utf8(text).len() > width {
        decode_utf8(encode_utf8(text).subrange(0, clip_point(text, width) as int))
    } else {
        text
    }
}

/// The two sides of a border on the rows from `row` up to, not including,
/// `end`.
pub open spec fn side_rows(left: u16, right: u16, row: u16, end: u16) -> Seq<char>
    decreases end - row,
{
    if row >= end {
        Seq::empty()
    } else {
        goto_spec(left, row) + full_block() + goto_spec(right, row) + full_block() + side_rows(
            left,
            right,
            (row + 1) as u16,
            end,
        )
    }
}

/// The length of a text as the grid counts it: its bytes of UTF-8, modulo
/// 2^16.
pub open spec fn grid_len(text: Seq<char>) -> u16 {
    (encode_utf8(text).len() % 0x1_0000) as u16
}

/// A cell with a border: the top and the bottom edge, the text clipped to
/// the room inside and centred, and the two sides. A text is measured in
/// bytes of UTF-8. Arithmetic on the grid wraps around at the bounds of
/// `u16`.
pub open spec fn bordered_spec<S>(cell: TUINodeView<S>) -> Seq<char> {
    let text = shown_text(cell);
    let width = inner_width(cell);
    goto_spec(cell.left.wrapping_add(1), cell.top) + repeated(upper_block(), width) + goto_spec(
        cell.left.wrapping_add(1),
        cell.top.wrapping_add(cell.height).wrapping_sub(1),
    ) + repeated(lower_block(), width) + goto_spec(
        cell.left.wrapping_add(cell.width / 2).wrapping_sub(grid_len(text) / 2),
        cell.top.wrapping_add(cell.height / 2),
    ) + clipped(text, width) + side_rows(
        cell.left,
        cell.left.wrapping_add(cell.width).wrapping_sub(1),
        cell.top,
        cell.top.wrapping_add(cell.height),
    )
}

/// One cell as it is drawn: with its border where it has one and is at least
/// three rows high, else as its text at its position; between `yellow` and
/// `reset` where it is disabled.
pub open spec fn draw_cell_spec<S>(
    cell: TUINodeView<S>,
    yellow: Seq<char>,
    reset: Seq<char>,
) -> Seq<char> {
    (if cell.disabled {
        yellow
    } else {
        Seq::empty()
    }) + (if cell.border && cell.height >= 3 {
        bordered_spec(cell)
    } else {
        goto_spec(cell.left, cell.top) + shown_text(cell)
    }) + (if cell.disabled {
        reset
    } else {
        Seq::empty()
    })
}

/// A resolved tree as it is drawn: every cell, a node's own before those of
/// its children.
pub open spec fn draw_rendered_spec<S>(
    e: RenderedView<TUINodeView<S>>,
    yellow: Seq<char>,
    reset: Seq<char>,
) -> Seq<char>
    decreases e, 0nat,
{
    match e {
        RenderedView::Empty => Seq::empty(),
        RenderedView::Node { path, payload, children } => draw_cell_spec(payload, yellow, reset)
            + draw_all_rendered_spec(children, children.len(), yellow, reset),
        RenderedView::Container { elements } => draw_all_rendered_spec(
            elements,
            elements.len(),
            yellow,
            reset,
        ),
    }
}

/// The first `n` trees of `els` as they are drawn, in order.
pub open spec fn draw_all_rendered_spec<S>(
    els: Seq<RenderedView<TUINodeView<S>>>,
    n: nat,
    yellow: Seq<char>,
    reset: Seq<char>,
) -> Seq<char>
    decreases els, n,
{
    if n == 0 || n > els.len() {
        Seq::empty()
    } else {
        draw_all_rendered_spec(els, (n - 1) as nat, yellow, reset) + draw_rendered_spec(
            els[n - 1],
            yellow,
            reset,
        )
    }
}

/// The frame that shows `e`: the screen cleared, the cursor hidden, then
/// the tree, its disabled cells between `yellow` and the reset sequence.
pub open spec fn draw_graph_spec<S>(e: RenderedView<TUINodeView<S>>, yellow: Seq<char>) -> Seq<
    char,
> {
    clear_all_spec() + hide_cursor_spec() + draw_rendered_spec(e, yellow, reset_spec())
}

fn push_repeated(out: &mut String, piece: &str, n: usize)
    ensures
        final(out)@ == old(out)@ + repeated(piece@, n as nat),
{
    let mut i: usize = 0;
    assert(out@ =~= old(out)@ + repeated(piece@, 0));
    while i < n
        invariant
            i <= n,
            out@ == old(out)@ + repeated(piece@, i as nat),
        decreases n - i,
    {
        out.append(piece);
        i += 1;
        assert(out@ =~= old(out)@ + repeated(piece@, i as nat));
    }
}

fn push_side_rows(out: &mut String, left: u16, right: u16, top: u16, end: u16)
    ensures
        final(out)@ == old(out)@ + side_rows(left, right, top, end),
{
    proof {
        reveal_strlit("\u{2588}");
        assert("\u{2588}"@ =~= full_block());
    }
    let mut line: u16 = top;
    let ghost mut done: Seq<char> = Seq::empty();
    assert(out@ =~= old(out)@ + done);
    while line < end
        invariant
            "\u{2588}"@ == full_block(),
            out@ == old(out)@ + done,
            done + side_rows(left, right, line, end) == side_rows(left, right, top, end),
        decreases end - line,
    {
        let ghost before = out@;
        let at_left = goto(left, line);
        let at_right = goto(right, line);
        out.append(at_left.as_str());
        out.append("\u{2588}");
        out.append(at_right.as_str());
        out.append("\u{2588}");
        proof {
            let row = goto_spec(left, line) + full_block() + goto_spec(right, line) + full_block();
            assert(out@ =~= before + row);
            assert(side_rows(left, right, line, end) == row + side_rows(
                left,
                right,
                (line + 1) as u16,
                end,
            ));
            assert((done + row) + side_rows(left, right, (line + 1) as u16, end) =~= done + (row
                + side_rows(left, right, (line + 1) as u16, end)));
            done = done + row;
            assert(out@ =~= old(out)@ + done);
        }
        line += 1;
    }
    assert(done + Seq::<char>::empty() =~= done);
}

/// The length of a text in bytes of UTF-8, as `str::len` counts it.
pub fn byte_len(text: &str) -> (length: usize)
    ensures
        length == encode_utf8(text@).len(),
{
    text.as_bytes().len()
}

/// Appends to `out` the part of `text` that fits into `width` bytes.
fn push_clipped(out: &mut String, text: &str, width: usize)
    ensures
        final(out)@ == old(out)@ + clipped(text@, width as nat),
{
    if byte_len(text) > width {
        let ghost bytes = encode_utf8(text@);
        proof {
            encode_utf8_valid_utf8(text@);
            assert(text.spec_bytes() == bytes);
        }
        let mut cut: usize = width;
        while !text.is_char_boundary(cut)
            invariant
                cut <= width,
                bytes == encode_utf8(text@),
                text.spec_bytes() == bytes,
                valid_utf8(bytes),
                clip_point(text@, cut as nat) == clip_point(text@, width as nat),
            decreases cut,
        {
            assert(cut > 0);
            cut -= 1;
        }
        assert(clip_point(text@, width as nat) == cut);
        let (head, _) = text.split_at(cut);
        proof {
            encode_utf8_decode_utf8(head@);
            assert(head.spec_bytes() == encode_utf8(head@));
            assert(encode_utf8(head@) == bytes.subrange(0, cut as int));
            assert(head@ == decode_utf8(bytes.subrange(0, cut as int)));
            assert(head@ == clipped(text@, width as nat));
        }
        out.append(head);
    } else {
        out.append(text);
    }
}

fn push_bordered<S>(out: &mut String, b: &TUINode<S>)
    ensures
        final(out)@ == old(out)@ + bordered_spec(b@),
{
    proof {
        reveal_strlit("");
        reveal_strlit("\u{2580}");
        reveal_strlit("\u{2584}");
        assert(""@ =~= Seq::<char>::empty());
        assert("\u{2580}"@ =~= upper_block());
        assert("\u{2584}"@ =~= lower_block());
    }
    let left: u16 = b.pos.left;
    let top: u16 = b.pos.top;
    let text: &str = match &b.text {
        Some(t) => t.as_str(),
        None => "",
    };
    assert(text@ == shown_text(b@));
    let width: usize = if b.dim.width >= 2 {
        (b.dim.width - 2) as usize
    } else {
        0
    };
    let length: usize = byte_len(text);
    let short: u16 = (length % 0x1_0000) as u16;
    let upper_at = goto(left.wrapping_add(1), top);
    let lower_at = goto(left.wrapping_add(1), top.wrapping_add(b.dim.height).wrapping_sub(1));
    let text_at = goto(
        left.wrapping_add(b.dim.width / 2).wrapping_sub(short / 2),
        top.wrapping_add(b.dim.height / 2),
    );
    let ghost p1 = upper_at@;
    let ghost p2 = p1 + repeated(upper_block(), width as nat);
    let ghost p3 = p2 + lower_at@;
    let ghost p4 = p3 + repeated(lower_block(), width as nat);
    let ghost p5 = p4 + text_at@;
    let ghost p6 = p5 + clipped(text@, width as nat);
    let ghost right = left.wrapping_add(b.dim.width).wrapping_sub(1);
    let ghost end = top.wrapping_add(b.dim.height);
    let ghost p7 = p6 + side_rows(left, right, top, end);
    assert(p7 == bordered_spec(b@));
    out.append(upper_at.as_str());
    assert(out@ =~= old(out)@ + p1);
    push_repeated(out, "\u{2580}", width);
    assert(out@ =~= old(out)@ + p2);
    out.append(lower_at.as_str());
    assert(out@ =~= old(out)@ + p3);
    push_repeated(out, "\u{2584}", width);
    assert(out@ =~= old(out)@ + p4);
    out.append(text_at.as_str());
    assert(out@ =~= old(out)@ + p5);
    push_clipped(out, text, width);
    assert(out@ =~= old(out)@ + p6);
    push_side_rows(
        out,
        left,
        left.wrapping_add(b.dim.width).wrapping_sub(1),
        top,
        top.wrapping_add(b.dim.height),
    );
    assert(out@ =~= old(out)@ + p7);
}

fn draw_rendered_el<S>(out: &mut String, b: &TUINode<S>, yellow: &str, reset: &str)
    ensures
        final(out)@ == old(out)@ + draw_cell_spec(b@, yellow@, reset@),
{
    proof {
        reveal_strlit("");
        assert(""@ =~= Seq::<char>::empty());
    }
    let ghost before = if b.disabled {
        yellow@
    } else {
        Seq::<char>::empty()
    };
    let ghost middle = if b.style.border && b.dim.height >= 3 {
        bordered_spec(b@)
    } else {
        goto_spec(b.pos.left, b.pos.top) + shown_text(b@)
    };
    let ghost behind = if b.disabled {
        reset@
    } else {
        Seq::<char>::empty()
    };
    assert(draw_cell_spec(b@, yellow@, reset@) == before + middle + behind);
    if b.disabled {
        out.append(yellow);
    }
    assert(out@ =~= old(out)@ + before);
    if b.style.border && b.dim.height >= 3 {
        push_bordered(out, b);
    } else {
        let text: &str = match &b.text {
            Some(t) => t.as_str(),
            None => "",
        };
        out.append(goto(b.pos.left, b.pos.top).as_str());
        out.append(text);
    }
    assert(out@ =~= old(out)@ + (before + middle));
    if b.disabled {
        out.append(reset);
    }
    assert(out@ =~= old(out)@ + (before + middle + behind));
}

fn draw_rendered_container<S>(
    out: &mut String,
    cont: &Vec<RenderedEl<TUINode<S>>>,
    yellow: &str,
    reset: &str,
)
    ensures
        final(out)@ == old(out)@ + draw_all_rendered_spec(
            rendered_views(cont@),
            cont@.len(),
            yellow@,
            reset@,
        ),
    decreases rendered_views(cont@), 0nat,
{
    let mut i: usize = 0;
    proof {
        lemma_rendered_views(cont@);
        assert(out@ =~= old(out)@ + draw_all_rendered_spec(
            rendered_views(cont@),
            0,
            yellow@,
            reset@,
        ));
    }
    while i < cont.len()
        invariant
            i <= cont.len(),
            rendered_views(cont@).len() == cont@.len(),
            forall|k: int|
                0 <= k < cont@.len() ==> (#[trigger] rendered_views(cont@)[k]) == cont@[k]@,
            out@ == old(out)@ + draw_all_rendered_spec(
                rendered_views(cont@),
                i as nat,
                yellow@,
                reset@,
            ),
        decreases cont.len() - i,
    {
        assert(rendered_views(cont@)[i as int] == cont@[i as int]@);
        draw_rendered(out, &cont[i], yellow, reset);
        i += 1;
        assert(out@ =~= old(out)@ + draw_all_rendered_spec(
            rendered_views(cont@),
            i as nat,
            yellow@,
            reset@,
        ));
    }
}

fn draw_rendered<S>(out: &mut String, e: &RenderedEl<TUINode<S>>, yellow: &str, reset: &str)
    ensures
        final(out)@ == old(out)@ + draw_rendered_spec(e@, yellow@, reset@),
    decreases e@, 1nat,
{
    match e {
        RenderedEl::Node(rel) => {
            proof {
                lemma_rendered_views(rel.children@);
                assert(e@->Node_children == rendered_views(rel.children@));
                assert(decreases_to!(e@ => rendered_views(rel.children@)));
            }
            draw_rendered_el(out, &rel.payload, yellow, reset);
            draw_rendered_container(out, &rel.children, yellow, reset);
            assert(out@ =~= old(out)@ + draw_rendered_spec(e@, yellow@, reset@));
        },
        RenderedEl::Container(c) => {
            proof {
                lemma_rendered_views(c@);
                assert(e@->Container_elements == rendered_views(c@));
                assert(decreases_to!(e@ => rendered_views(c@)));
            }
            draw_rendered_container(out, c, yellow, reset);
        },
        RenderedEl::Empty => {
            assert(out@ =~= old(out)@ + draw_rendered_spec(e@, yellow@, reset@));
        },
    }
}

/// The frame that shows the resolved tree `el`, with `yellow` as the
/// sequence that marks a disabled cell.
pub fn draw_graph_with<S>(el: &RenderedEl<TUINode<S>>, yellow: &str) -> (frame: String)
    ensures
        frame@ == draw_graph_spec(el@, yellow@),
{
    let mut frame = clear_all();
    frame.append(hide_cursor().as_str());
    let reset = fg_reset();
    draw_rendered(&mut frame, el, yellow, reset.as_str());
    assert(frame@ =~= draw_graph_spec(el@, yellow@));
    frame
}

/// The frame that shows the resolved tree `el`, as the text to write to the
/// terminal. A disabled cell is drawn in yellow, unless the process runs
/// with colours switched off.
pub fn draw_graph<S>(el: &RenderedEl<TUINode<S>>) -> (frame: String)
    ensures
        frame@ == draw_graph_spec(el@, yellow_spec()) || frame@ == draw_graph_spec(
            el@,
            Seq::<char>::empty(),
        ),
{
    let yellow = fg_yellow();
    draw_graph_with(el, yellow.as_str())
}

/// Whether the point lies in the box that starts at `left`, `top` and
/// reaches `width` columns to the right and `height` rows down, its edges
/// included.
pub open spec fn aabb_contains_spec(
    left: u16,
    top: u16,
    width: u16,
    height: u16,
    point_left: u16,
    point_top: u16,
) -> bool {
    left <= point_left && left + width >= point_left && top <= point_top && top + height
        >= point_top
}

/// Whether the point lies in the box, its edges included.
pub fn aabb_contains(
    left: u16,
    top: u16,
    width: u16,
    height: u16,
    point_left: u16,
    point_top: u16,
) -> (inside: bool)
    ensures
        inside == aabb_contains_spec(left, top, width, height, point_left, point_top),
{
    let right: u32 = left as u32 + width as u32;
    let bottom: u32 = top as u32 + height as u32;
    left <= point_left && right >= point_left as u32 && top <= point_top && bottom
        >= point_top as u32
}

/// Whether a click at the point falls on `cell` and `cell` handles it.
pub open spec fn handles_click<S>(cell: TUINodeView<S>, left: u16, top: u16) -> bool {
    aabb_contains_spec(cell.left, cell.top, cell.width, cell.height, left, top)
        && cell.on_click is Some
}

/// The changes that a click at the point makes, in drawing order: one for
/// every cell on which the click falls and which handles it. A disabled
/// cell takes no click, and neither does anything below it; a cell that
/// handles the click hides its own children from it, and nothing else.
pub open spec fn click_targets<S>(e: RenderedView<TUINodeView<S>>, left: u16, top: u16) -> Seq<
    (Seq<char>, S),
>
    decreases e, 0nat,
{
    match e {
        RenderedView::Empty => Seq::empty(),
        RenderedView::Node { path, payload, children } => if payload.disabled {
            Seq::empty()
        } else if handles_click(payload, left, top) {
            seq![payload.on_click->Some_0]
        } else {
            click_targets_among(children, children.len(), left, top)
        },
        RenderedView::Container { elements } => click_targets_among(
            elements,
            elements.len(),
            left,
            top,
        ),
    }
}

/// The changes that a click at the point makes among the first `n` trees of
/// `els`: those of each tree, one tree after the other.
pub open spec fn click_targets_among<S>(
    els: Seq<RenderedView<TUINodeView<S>>>,
    n: nat,
    left: u16,
    top: u16,
) -> Seq<(Seq<char>, S)>
    decreases els, n,
{
    if n == 0 || n > els.len() {
        Seq::empty()
    } else {
        click_targets_among(els, (n - 1) as nat, left, top) + click_targets(
            els[n - 1],
            left,
            top,
        )
    }
}

/// The store after the changes were made in their order, each one
/// overwriting the entry at its path.
pub open spec fn apply_changes<S>(
    changes: Seq<(Seq<char>, S)>,
    store: Map<Seq<char>, S>,
) -> Map<Seq<char>, S>
    decreases changes.len(),
{
    if changes.len() == 0 {
        store
    } else {
        apply_changes(changes.drop_last(), store).insert(changes.last().0, changes.last().1)
    }
}

/// The store after a click at the point on the tree `e`: every handler that
/// takes the click has run, in drawing order.
pub open spec fn store_after_click<S>(
    e: RenderedView<TUINodeView<S>>,
    left: u16,
    top: u16,
    store: Map<Seq<char>, S>,
) -> Map<Seq<char>, S> {
    apply_changes(click_targets(e, left, top), store)
}

/// Making the changes of two lists in turn is making those of the joined
/// list.
pub proof fn lemma_apply_changes_in_turn<S>(
    first: Seq<(Seq<char>, S)>,
    second: Seq<(Seq<char>, S)>,
    store: Map<Seq<char>, S>,
)
    ensures
        apply_changes(first + second, store) == apply_changes(
            second,
            apply_changes(first, store),
        ),
    decreases second.len(),
{
    if second.len() == 0 {
        assert(first + second =~= first);
    } else {
        lemma_apply_changes_in_turn(first, second.drop_last(), store);
        assert((first + second).drop_last() =~= first + second.drop_last());
        assert((first + second).last() == second.last());
    }
}

fn track_mouse_clicked_among<S>(
    els: &Vec<RenderedEl<TUINode<S>>>,
    left: u16,
    top: u16,
    store: &mut StateStore<S>,
) -> (hit: bool)
    ensures
        hit == (click_targets_among(rendered_views(els@), els@.len(), left, top).len() > 0),
        final(store)@ == apply_changes(
            click_targets_among(rendered_views(els@), els@.len(), left, top),
            old(store)@,
        ),
    decreases rendered_views(els@), 0nat,
{
    let mut hit = false;
    let mut i: usize = 0;
    proof {
        lemma_rendered_views(els@);
    }
    while i < els.len()
        invariant
            i <= els.len(),
            rendered_views(els@).len() == els@.len(),
            forall|k: int| 0 <= k < els@.len() ==> (#[trigger] rendered_views(els@)[k]) == els@[k]@,
            hit == (click_targets_among(rendered_views(els@), i as nat, left, top).len() > 0),
            store@ == apply_changes(
                click_targets_among(rendered_views(els@), i as nat, left, top),
                old(store)@,
            ),
        decreases els.len() - i,
    {
        assert(rendered_views(els@)[i as int] == els@[i as int]@);
        let one = track_mouse_clicked(&els[i], left, top, store);
        proof {
            lemma_apply_changes_in_turn(
                click_targets_among(rendered_views(els@), i as nat, left, top),
                click_targets(els@[i as int]@, left, top),
                old(store)@,
            );
        }
        if one {
            hit = true;
        }
        i += 1;
    }
    hit
}

/// Hands a click at the point to the tree `el`: the handler of every cell
/// that takes the click is run on `store`, in drawing order. Says whether
/// there was at least one.
pub fn track_mouse_clicked<S>(
    el: &RenderedEl<TUINode<S>>,
    left: u16,
    top: u16,
    store: &mut StateStore<S>,
) -> (hit: bool)
    ensures
        hit == (click_targets(el@, left, top).len() > 0),
        final(store)@ == store_after_click(el@, left, top, old(store)@),
    decreases el@, 1nat,
{
    match el {
        RenderedEl::Empty => false,
        RenderedEl::Node(node) => {
            proof {
                lemma_rendered_views(node.children@);
                assert(el@->Node_children == rendered_views(node.children@));
                assert(decreases_to!(el@ => rendered_views(node.children@)));
            }
            let tuinode = &node.payload;
            if tuinode.disabled {
                return false;
            }
            if aabb_contains(
                tuinode.pos.left,
                tuinode.pos.top,
                tuinode.dim.width,
                tuinode.dim.height,
                left,
                top,
            ) {
                match &tuinode.event_handlers.on_click {
                    Some(c) => {
                        c.apply(store);
                        proof {
                            let only = click_targets(el@, left, top);
                            assert(only =~= seq![el@->Node_payload.on_click->Some_0]);
                            assert(only.drop_last() =~= Seq::empty());
                            assert(apply_changes(only.drop_last(), old(store)@) == old(store)@);
                        }
                        return true;
                    },
                    None => {},
                }
            }
            track_mouse_clicked_among(&node.children, left, top, store)
        },
        RenderedEl::Container(container) => {
            proof {
                lemma_rendered_views(container@);
                assert(el@->Container_elements == rendered_views(container@));
                assert(decreases_to!(el@ => rendered_views(container@)));
            }
            track_mouse_clicked_among(container, left, top, store)
        },
    }
}

/// What the frame loop hears from the terminal between two passes.
pub enum InputEvent {
    /// A key that stands for a character was pressed.
    Key(char),
    /// A mouse button was released at this column and row.
    MouseRelease(u16, u16),
    /// Anything else.
    Other,
}

/// The events from position `from` on, handled in order against the tree of
/// the last pass: whether the application is to quit, and the store that
/// this leaves. The key `q` asks to quit, and nothing behind it is handled;
/// a released mouse button is a click on the tree, where there is one, and
/// runs every handler that takes it.
pub open spec fn process_events_spec<S>(
    events: Seq<InputEvent>,
    from: nat,
    app: Option<RenderedView<TUINodeView<S>>>,
    store: Map<Seq<char>, S>,
) -> (bool, Map<Seq<char>, S>)
    decreases events.len() - from,
{
    if from >= events.len() {
        (false, store)
    } else {
        match events[from as int] {
            InputEvent::Key(c) => if c == 'q' {
                (true, store)
            } else {
                process_events_spec(events, from + 1, app, store)
            },
            InputEvent::MouseRelease(left, top) => match app {
                Some(tree) => process_events_spec(
                    events,
                    from + 1,
                    app,
                    store_after_click(tree, left, top, store),
                ),
                None => process_events_spec(events, from + 1, app, store),
            },
            InputEvent::Other => process_events_spec(events, from + 1, app, store),
        }
    }
}

/// The model of the tree of the last pass, where there was one.
pub open spec fn app_view<S>(app: Option<RenderedEl<TUINode<S>>>) -> Option<
    RenderedView<TUINodeView<S>>,
> {
    match app {
        Some(tree) => Some(tree@),
        None => None,
    }
}

/// Handles the events that have come since the last pass, in order. Returns
/// `true` where the application is to quit.
pub fn process_events<S>(
    events: &Vec<InputEvent>,
    app: &Option<RenderedEl<TUINode<S>>>,
    store: &mut StateStore<S>,
) -> (quit: bool)
    ensures
        (quit, final(store)@) == process_events_spec(events@, 0, app_view(*app), old(store)@),
{
    let mut i: usize = 0;
    while i < events.len()
        invariant
            i <= events.len(),
            process_events_spec(events@, i as nat, app_view(*app), store@) == process_events_spec(
                events@,
                0,
                app_view(*app),
                old(store)@,
            ),
        decreases events.len() - i,
    {
        match &events[i] {
            InputEvent::Key(c) => {
                if *c == 'q' {
                    return true;
                }
            },
            InputEvent::MouseRelease(left, top) => {
                match app {
                    None => {},
                    Some(n) => {
                        let _ = track_mouse_clicked(n, *left, *top, store);
                    },
                }
            },
            InputEvent::Other => {},
        }
        i += 1;
    }
    false
}

/// Paces the frame loop: it knows how long a frame is to last and when the
/// last one ended, both in nanoseconds of one monotonic clock.
pub struct VSync {
    last: Option<u64>,
    every: u64,
}

impl VSync {
    /// When the last frame ended, if one has.
    pub closed spec fn last(&self) -> Option<u64> {
        self.last
    }

    /// How long a frame is to last.
    pub closed spec fn every(&self) -> u64 {
        self.every
    }

    /// How long to sleep at the time `now` so that the frame lasts its full
    /// length: all of it before the first frame, what is left of it after,
    /// and nothing where the frame has overrun or the clock has not moved
    /// forward.
    pub open spec fn spec_time_to_wait(&self, now: u64) -> u64 {
        match self.last() {
            None => self.every(),
            Some(t) => {
                let elapsed = if now >= t {
                    now - t
                } else {
                    0
                };
                if elapsed < self.every() {
                    (self.every() - elapsed) as u64
                } else {
                    0
                }
            },
        }
    }

    /// A pacer for frames of `every` nanoseconds, before the first frame.
    pub fn new(every: u64) -> (vsync: VSync)
        ensures
            vsync.last() is None,
            vsync.every() == every,
    {
        VSync { last: None, every }
    }

    /// How long to sleep at the time `now`.
    pub fn time_to_wait(&self, now: u64) -> (to_wait: u64)
        ensures
            to_wait == self.spec_time_to_wait(now),
    {
        match self.last {
            None => self.every,
            Some(t) => {
                let elapsed: u64 = if now >= t {
                    now - t
                } else {
                    0
                };
                if elapsed < self.every {
                    self.every - elapsed
                } else {
                    0
                }
            },
        }
    }

    /// Records that a frame ended at the time `now`.
    pub fn tick(&mut self, now: u64)
        ensures
            final(self).last() == Some(now),
            final(self).every() == old(self).every(),
    {
        self.last = Some(now);
    }
}

} // verus!

//! The terminal buffer that pictures are drawn into: `ratatui`'s, by what its cells hold.

use ratatui::buffer::Buffer;
use ratatui::style::Color;
use vstd::prelude::*;
use crate::render::Rect;

verus! {

/// `ratatui::buffer::Buffer`: a grid of styled cells.
#[verifier::external_type_specification]
#[verifier::external_body]
pub struct ExBuffer(Buffer);

/// A terminal colour: true colour, or any other by some number.
pub enum Paint {
    Rgb(u8, u8, u8),
    Other(int),
}

/// What a cell shows.
pub struct CellModel {
    /// Its characters.
    pub symbol: Seq<char>,
    /// Its foreground colour.
    pub fg: Paint,
    /// Its background colour.
    pub bg: Paint,
}

/// The cells of a buffer, by column and row: those that indexing the buffer reaches.
pub uninterp spec fn cells(buf: Buffer) -> Map<(u16, u16), CellModel>;

/// The area that a buffer declares.
pub uninterp spec fn buffer_area(buf: Buffer) -> Rect;

/// `Buffer::area`: the area that the buffer declares.
#[verifier::external_body]
fn area_of(buf: &Buffer) -> (r: Rect)
    ensures
        r == buffer_area(*buf),
{
    let area = buf.area();
    Rect { x: area.x, y: area.y, width: area.width, height: area.height }
}

/// `Cell::symbol` of the cell at `(x, y)`: its characters.
#[verifier::external_body]
fn symbol_at(buf: &Buffer, x: u16, y: u16) -> (r: String)
    requires
        cells(*buf).contains_key((x, y)),
    ensures
        r@ == cells(*buf)[(x, y)].symbol,
{
    buf[(x, y)].symbol().to_string()
}

/// `Cell::set_char` of the cell at `(x, y)`: it shows that character, and nothing else changes.
#[verifier::external_body]
pub(crate) fn set_char(buf: &mut Buffer, x: u16, y: u16, ch: char)
    requires
        cells(*old(buf)).contains_key((x, y)),
    ensures
        buffer_area(*final(buf)) == buffer_area(*old(buf)),
        cells(*final(buf)) == cells(*old(buf)).insert(
            (x, y),
            (CellModel { symbol: seq![ch], ..cells(*old(buf))[(x, y)] }),
        ),
{
    buf[(x, y)].set_char(ch);
}

/// `Cell::set_fg` of the cell at `(x, y)`, with a true colour: that is its foreground, and
/// nothing else changes.
#[verifier::external_body]
pub(crate) fn set_fg(buf: &mut Buffer, x: u16, y: u16, r: u8, g: u8, b: u8)
    requires
        cells(*old(buf)).contains_key((x, y)),
    ensures
        buffer_area(*final(buf)) == buffer_area(*old(buf)),
        cells(*final(buf)) == cells(*old(buf)).insert(
            (x, y),
            (CellModel { fg: Paint::Rgb(r, g, b), ..cells(*old(buf))[(x, y)] }),
        ),
{
    buf[(x, y)].set_fg(Color::Rgb(r, g, b));
}

/// `Cell::set_bg` of the cell at `(x, y)`, with a true colour: that is its background, and
/// nothing else changes.
#[verifier::external_body]
pub(crate) fn set_bg(buf: &mut Buffer, x: u16, y: u16, r: u8, g: u8, b: u8)
    requires
        cells(*old(buf)).contains_key((x, y)),
    ensures
        buffer_area(*final(buf)) == buffer_area(*old(buf)),
        cells(*final(buf)) == cells(*old(buf)).insert(
            (x, y),
            (CellModel { bg: Paint::Rgb(r, g, b), ..cells(*old(buf))[(x, y)] }),
        ),
{
    buf[(x, y)].set_bg(Color::Rgb(r, g, b));
}

/// `Buffer::cell`: whether indexing the buffer reaches a cell at `(x, y)`.
#[verifier::external_body]
pub(crate) fn has_cell(buf: &Buffer, x: u16, y: u16) -> (r: bool)
    ensures
        r == cells(*buf).contains_key((x, y)),
{
    buf.cell((x, y)).is_some()
}

/// `(x, y)` lies in the area.
pub open spec fn inside(area: Rect, x: int, y: int) -> bool {
    area.x <= x < area.x + area.width && area.y <= y < area.y + area.height
}

/// The buffer has every cell of the area.
pub open spec fn covers(buf: Buffer, area: Rect) -> bool {
    area.width > 0 && area.height > 0 ==> {
        &&& area.x + area.width <= 0x1_0000 && area.y + area.height <= 0x1_0000
        &&& forall|x: u16, y: u16|
            inside(area, x as int, y as int) ==> #[trigger] cells(buf).contains_key(
                (x, y),
            )
    }
}

/// The buffer has every cell from column `left` to `right` and from row `top` to `bottom`, the
/// last ones excluded.
spec fn block_present(buf: Buffer, left: int, right: int, top: int, bottom: int) -> bool {
    forall|x: u16, y: u16|
        left <= x < right && top <= y < bottom ==> #[trigger] cells(buf).contains_key((x, y))
}

/// Whether the buffer has every cell of a block.
fn has_block(buf: &Buffer, left: u32, right: u32, top: u32, bottom: u32) -> (r: bool)
    requires
        right <= 0x1_0000,
        bottom <= 0x1_0000,
    ensures
        r == block_present(*buf, left as int, right as int, top as int, bottom as int),
{
    let mut y: u32 = top;
    while y < bottom
        invariant
            right <= 0x1_0000,
            bottom <= 0x1_0000,
            top <= y,
            y <= bottom || y == top,
            block_present(*buf, left as int, right as int, top as int, y as int),
        decreases bottom - y,
    {
        let mut x: u32 = left;
        while x < right
            invariant
                right <= 0x1_0000,
                bottom <= 0x1_0000,
                top <= y < bottom,
                left <= x,
                x <= right || x == left,
                block_present(*buf, left as int, right as int, top as int, y as int),
                block_present(*buf, left as int, x as int, y as int, y + 1),
            decreases right - x,
        {
            if !has_cell(buf, x as u16, y as u16) {
                assert(!cells(*buf).contains_key((x as u16, y as u16)));
                return false;
            }
            x = x + 1;
        }
        y = y + 1;
    }
    true
}

/// Whether the buffer has every cell of the area.
pub fn holds(buf: &Buffer, area: Rect) -> (r: bool)
    ensures
        r == covers(*buf, area),
{
    if area.width == 0 || area.height == 0 {
        return true;
    }
    let (left, top): (u32, u32) = (area.x as u32, area.y as u32);
    let (right, bottom): (u32, u32) = (left + area.width as u32, top + area.height as u32);
    if right > 0x1_0000 || bottom > 0x1_0000 {
        return false;
    }
    let r: bool = has_block(buf, left, right, top, bottom);
    assert(forall|x: u16, y: u16|
        #![trigger cells(*buf).contains_key((x, y))]
        inside(area, x as int, y as int) <==> left <= x < right && top <= y < bottom);
    r
}

/// `a + b`, no larger than a `u16` holds.
pub open spec fn edge(a: u16, b: u16) -> int {
    if a + b <= 0xFFFF {
        a + b
    } else {
        0xFFFF
    }
}

/// Every cell of the declared area is there.
pub open spec fn whole(buf: Buffer) -> bool {
    let area = buffer_area(buf);
    forall|x: u16, y: u16|
        area.x <= x < edge(area.x, area.width) && area.y <= y < edge(area.y, area.height)
            ==> #[trigger] cells(buf).contains_key((x, y))
}

/// The symbols of row `y` from the area's left edge to column `x`.
pub open spec fn row_text(buf: Buffer, y: int, x: int) -> Seq<char>
    decreases x,
{
    if x <= buffer_area(buf).x {
        Seq::empty()
    } else {
        row_text(buf, y, x - 1) + cells(buf)[((x - 1) as u16, y as u16)].symbol
    }
}

/// The rows from the area's top edge to row `y`, each ended by a line feed.
pub open spec fn rows_text(buf: Buffer, y: int) -> Seq<char>
    decreases y,
{
    let area = buffer_area(buf);
    if y <= area.y {
        Seq::empty()
    } else {
        rows_text(buf, y - 1) + row_text(buf, y - 1, edge(area.x, area.width)) + "\n"@
    }
}

/// Dump a buffer to text: one line per row, each cell's symbol from left to right.
pub fn buffer_to_text(buf: &Buffer) -> (r: String)
    requires
        whole(*buf),
    ensures
        r@ == rows_text(*buf, edge(buffer_area(*buf).y, buffer_area(*buf).height)),
{
    let area: Rect = area_of(buf);
    let right: u16 = area.x.saturating_add(area.width);
    let bottom: u16 = area.y.saturating_add(area.height);
    let mut out: String = String::new();
    let mut y: u16 = area.y;
    while y < bottom
        invariant
            whole(*buf),
            area == buffer_area(*buf),
            right == edge(area.x, area.width),
            bottom == edge(area.y, area.height),
            area.y <= y <= bottom,
            out@ == rows_text(*buf, y as int),
        decreases bottom - y,
    {
        let ghost above = out@;
        let mut x: u16 = area.x;
        assert(out@ =~= above + row_text(*buf, y as int, x as int));
        while x < right
            invariant
                whole(*buf),
                area == buffer_area(*buf),
                right == edge(area.x, area.width),
                bottom == edge(area.y, area.height),
                area.y <= y < bottom,
                area.x <= x <= right,
                out@ == above + row_text(*buf, y as int, x as int),
            decreases right - x,
        {
            assert(cells(*buf).contains_key((x, y)));
            let symbol: String = symbol_at(buf, x, y);
            out.append(symbol.as_str());
            assert(out@ =~= above + row_text(*buf, y as int, x + 1));
            x = x + 1;
        }
        out.append("\n");
        assert(out@ =~= above + row_text(*buf, y as int, right as int) + "\n"@);
        y = y + 1;
    }
    out
}

/// Dump a buffer to text where every cell of its declared area is there; `None` where one is not.
pub fn try_buffer_to_text(buf: &Buffer) -> (r: Option<String>)
    ensures
        r is Some <==> whole(*buf),
        r matches Some(text) ==> text@ == rows_text(
            *buf,
            edge(buffer_area(*buf).y, buffer_area(*buf).height),
        ),
{
    let area: Rect = area_of(buf);
    let right: u16 = area.x.saturating_add(area.width);
    let bottom: u16 = area.y.saturating_add(area.height);
    if has_block(buf, area.x as u32, right as u32, area.y as u32, bottom as u32) {
        Some(buffer_to_text(buf))
    } else {
        None
    }
}

/// In a grid of `w` by `h` places laid out row by row, place `(x, y)` lies in the grid and is
/// that of no other `(u, v)`.
pub(crate) proof fn lemma_places(w: int, h: int, x: int, y: int, u: int, v: int)
    requires
        0 <= x < w,
        0 <= y < h,
        0 <= u < w,
        0 <= v < h,
    ensures
        0 <= y * w + x < w * h,
        y * w + x == v * w + u ==> x == u && y == v,
{
    assert(0 <= y * w + x < w * h) by (nonlinear_arith)
        requires
            0 <= x < w,
            0 <= y < h,
    ;
    if y < v {
        assert(y * w + w <= v * w) by (nonlinear_arith)
            requires
                y < v,
                w > 0,
        ;
    } else if v < y {
        assert(v * w + w <= y * w) by (nonlinear_arith)
            requires
                v < y,
                w > 0,
        ;
    }
}

/// The symbols of one row of the buffer's area, cell by cell.
pub open spec fn row_symbols(buf: Buffer, y: int, width: nat) -> Seq<Seq<char>> {
    Seq::new(width, |i: int| cells(buf)[((buffer_area(buf).x + i) as u16, y as u16)].symbol)
}

/// The lines of the buffer's area: each row's symbols in turn, and a line feed.
pub open spec fn lines(buf: Buffer, width: nat, height: nat) -> Seq<Seq<char>> {
    Seq::new(
        height,
        |j: int| row_symbols(buf, buffer_area(buf).y + j, width).flatten().push('\n'),
    )
}

/// The first `n` symbols of a row are its text up to there.
proof fn lemma_row_text(buf: Buffer, y: int, n: nat)
    ensures
        row_text(buf, y, buffer_area(buf).x + n) == row_symbols(buf, y, n).flatten(),
    decreases n,
{
    if n > 0 {
        let m = (n - 1) as nat;
        lemma_row_text(buf, y, m);
        let last = row_symbols(buf, y, n)[m as int];
        assert(row_symbols(buf, y, n) =~= row_symbols(buf, y, m).push(last));
        row_symbols(buf, y, m).lemma_flatten_push(last);
    }
}

/// The first `n` lines are the text up to there.
proof fn lemma_rows_text(buf: Buffer, width: nat, n: nat)
    requires
        width == edge(buffer_area(buf).x, buffer_area(buf).width) - buffer_area(buf).x,
    ensures
        rows_text(buf, buffer_area(buf).y + n) == lines(buf, width, n).flatten(),
    decreases n,
{
    if n > 0 {
        let m = (n - 1) as nat;
        lemma_rows_text(buf, width, m);
        lemma_row_text(buf, buffer_area(buf).y + m, width);
        reveal_strlit("\n");
        let row = row_symbols(buf, buffer_area(buf).y + m, width).flatten();
        let last = lines(buf, width, n)[m as int];
        assert(last == row.push('\n'));
        assert(lines(buf, width, n) =~= lines(buf, width, m).push(last));
        lines(buf, width, m).lemma_flatten_push(last);
        assert(rows_text(buf, buffer_area(buf).y + n) =~= rows_text(buf, buffer_area(buf).y + m)
            + last);
    }
}

/// A buffer's text is its rows from top to bottom, each the symbols of its cells from left to
/// right and a line feed, for as many columns and rows as the area has.
pub proof fn law_text_is_the_rows_in_order(buf: Buffer)
    requires
        buffer_area(buf).x + buffer_area(buf).width <= 0xFFFF,
        buffer_area(buf).y + buffer_area(buf).height <= 0xFFFF,
    ensures
        rows_text(buf, edge(buffer_area(buf).y, buffer_area(buf).height)) == lines(
            buf,
            buffer_area(buf).width as nat,
            buffer_area(buf).height as nat,
        ).flatten(),
{
    lemma_rows_text(buf, buffer_area(buf).width as nat, buffer_area(buf).height as nat);
}

/// A buffer covers an area that is not empty exactly when it has the cell at every offset from
/// the area's corner.
pub proof fn law_covered_areas_have_every_cell(buf: Buffer, area: Rect)
    requires
        area.width > 0,
        area.height > 0,
    ensures
        covers(buf, area) <==> forall|i: int, j: int|
            0 <= i < area.width && 0 <= j < area.height ==> #[trigger] has_place(
                buf,
                area.x + i,
                area.y + j,
            ),
{
    if covers(buf, area) {
        assert forall|i: int, j: int| 0 <= i < area.width && 0 <= j < area.height implies
            #[trigger] has_place(buf, area.x + i, area.y + j) by {
            let (x, y) = ((area.x + i) as u16, (area.y + j) as u16);
            assert(inside(area, x as int, y as int));
            assert(cells(buf).contains_key((x, y)));
        }
    }
    if forall|i: int, j: int|
        0 <= i < area.width && 0 <= j < area.height ==> #[trigger] has_place(
            buf,
            area.x + i,
            area.y + j,
        ) {
        assert(has_place(buf, area.x + (area.width - 1), area.y + (area.height - 1)));
        assert forall|x: u16, y: u16| inside(area, x as int, y as int) implies #[trigger] cells(
            buf,
        ).contains_key((x, y)) by {
            assert(has_place(buf, area.x + (x - area.x), area.y + (y - area.y)));
        }
    }
}

/// The buffer has the cell at column `x`, row `y`.
pub open spec fn has_place(buf: Buffer, x: int, y: int) -> bool {
    0 <= x <= 0xFFFF && 0 <= y <= 0xFFFF && cells(buf).contains_key((x as u16, y as u16))
}

/// A buffer is whole exactly when it has the cell at every offset from its area's corner, as far
/// as columns and rows are counted: up to the last number of sixteen bits, which is not one.
pub proof fn law_whole_buffers_have_every_cell(buf: Buffer)
    ensures
        whole(buf) <==> forall|i: int, j: int|
            0 <= i < buffer_area(buf).width && 0 <= j < buffer_area(buf).height
                && buffer_area(buf).x + i < 0xFFFF && buffer_area(buf).y + j < 0xFFFF
                ==> #[trigger] has_place(buf, buffer_area(buf).x + i, buffer_area(buf).y + j),
{
    let area = buffer_area(buf);
    if whole(buf) {
        assert forall|i: int, j: int|
            0 <= i < area.width && 0 <= j < area.height && area.x + i < 0xFFFF && area.y + j
                < 0xFFFF implies #[trigger] has_place(buf, area.x + i, area.y + j) by {
            let (x, y) = ((area.x + i) as u16, (area.y + j) as u16);
            assert(cells(buf).contains_key((x, y)));
        }
    }
    if forall|i: int, j: int|
        0 <= i < area.width && 0 <= j < area.height && area.x + i < 0xFFFF && area.y + j < 0xFFFF
            ==> #[trigger] has_place(buf, area.x + i, area.y + j) {
        assert forall|x: u16, y: u16|
            area.x <= x < edge(area.x, area.width) && area.y <= y < edge(
                area.y,
                area.height,
            ) implies #[trigger] cells(buf).contains_key((x, y)) by {
            assert(has_place(buf, area.x + (x - area.x), area.y + (y - area.y)));
        }
    }
}

} // verus!

//! Pictures of the window, or of a part of it.

use crate::debug_server::Response;
use crate::debug_server;
use crate::geometry::{Rect, max, min};
use crate::geometry;
use crate::text;
use vstd::arithmetic::div_mod::lemma_fundamental_div_mod_converse;
use vstd::prelude::*;

verus! {

/// A text in specifications.
pub type Txt = Seq<char>;

/// A side of the window.
#[derive(Clone, Copy, Debug, PartialEq, Eq, Structural)]
pub enum Side {
    Left,
    Right,
}

/// A part of the window that has a name.
#[derive(Clone, Copy, Debug, PartialEq, Eq, Structural)]
pub enum RectTarget {
    Client,
    TabBar,
    Log,
    PathBar(Side),
    List(Side),
    StatusBar(Side),
    Pane(Side),
    /// The row under the cursor.
    Cursor(Side),
}

/// The part of the window that a name stands for; on the active side, where it names none.
pub open spec fn target_named(name: Txt, active: Side) -> Option<RectTarget> {
    if name == "full"@ || name == "client"@ || name == "window"@ {
        Some(RectTarget::Client)
    } else if name == "tab_bar"@ {
        Some(RectTarget::TabBar)
    } else if name == "log"@ {
        Some(RectTarget::Log)
    } else if name == "path_bar"@ {
        Some(RectTarget::PathBar(active))
    } else if name == "path_bar_left"@ {
        Some(RectTarget::PathBar(Side::Left))
    } else if name == "path_bar_right"@ {
        Some(RectTarget::PathBar(Side::Right))
    } else if name == "list"@ {
        Some(RectTarget::List(active))
    } else if name == "list_left"@ {
        Some(RectTarget::List(Side::Left))
    } else if name == "list_right"@ {
        Some(RectTarget::List(Side::Right))
    } else if name == "status_bar"@ {
        Some(RectTarget::StatusBar(active))
    } else if name == "status_bar_left"@ {
        Some(RectTarget::StatusBar(Side::Left))
    } else if name == "status_bar_right"@ {
        Some(RectTarget::StatusBar(Side::Right))
    } else if name == "pane"@ {
        Some(RectTarget::Pane(active))
    } else if name == "pane_left"@ {
        Some(RectTarget::Pane(Side::Left))
    } else if name == "pane_right"@ {
        Some(RectTarget::Pane(Side::Right))
    } else if name == "cursor"@ {
        Some(RectTarget::Cursor(active))
    } else if name == "cursor_left"@ {
        Some(RectTarget::Cursor(Side::Left))
    } else if name == "cursor_right"@ {
        Some(RectTarget::Cursor(Side::Right))
    } else {
        None
    }
}

/// The part of the window that a name stands for; on the active side, where it names none.
pub fn debug_rect(name: &str, active: Side) -> (target: Option<RectTarget>)
    ensures
        target == target_named(name@, active),
{
    if text::same(name, "full") || text::same(name, "client") || text::same(name, "window") {
        Some(RectTarget::Client)
    } else if text::same(name, "tab_bar") {
        Some(RectTarget::TabBar)
    } else if text::same(name, "log") {
        Some(RectTarget::Log)
    } else if text::same(name, "path_bar") {
        Some(RectTarget::PathBar(active))
    } else if text::same(name, "path_bar_left") {
        Some(RectTarget::PathBar(Side::Left))
    } else if text::same(name, "path_bar_right") {
        Some(RectTarget::PathBar(Side::Right))
    } else if text::same(name, "list") {
        Some(RectTarget::List(active))
    } else if text::same(name, "list_left") {
        Some(RectTarget::List(Side::Left))
    } else if text::same(name, "list_right") {
        Some(RectTarget::List(Side::Right))
    } else if text::same(name, "status_bar") {
        Some(RectTarget::StatusBar(active))
    } else if text::same(name, "status_bar_left") {
        Some(RectTarget::StatusBar(Side::Left))
    } else if text::same(name, "status_bar_right") {
        Some(RectTarget::StatusBar(Side::Right))
    } else if text::same(name, "pane") {
        Some(RectTarget::Pane(active))
    } else if text::same(name, "pane_left") {
        Some(RectTarget::Pane(Side::Left))
    } else if text::same(name, "pane_right") {
        Some(RectTarget::Pane(Side::Right))
    } else if text::same(name, "cursor") {
        Some(RectTarget::Cursor(active))
    } else if text::same(name, "cursor_left") {
        Some(RectTarget::Cursor(Side::Left))
    } else if text::same(name, "cursor_right") {
        Some(RectTarget::Cursor(Side::Right))
    } else {
        None
    }
}

/// Where a control is in the window: `left` to `bottom` are its edges on the screen, and the
/// window's own corner is at `origin_x`, `origin_y`.
pub fn rect_in_client(
    left: i32,
    top: i32,
    right: i32,
    bottom: i32,
    origin_x: i32,
    origin_y: i32,
) -> (rect: Rect)
    ensures
        rect.x == left - origin_x,
        rect.y == top - origin_y,
        rect.w == right - left,
        rect.h == bottom - top,
        geometry::on_screen(rect),
{
    Rect {
        x: left as i64 - origin_x as i64,
        y: top as i64 - origin_y as i64,
        w: right as i64 - left as i64,
        h: bottom as i64 - top as i64,
    }
}

/// The smallest rectangle around the three parts of a pane: its path bar, its list and its
/// status bar.
pub fn pane_bbox(a: Rect, b: Rect, c: Rect) -> (bbox: Rect)
    requires
        geometry::on_screen(a),
        geometry::on_screen(b),
        geometry::on_screen(c),
    ensures
        bbox.x == geometry::lesser(geometry::lesser(a.x as int, b.x as int), c.x as int),
        bbox.y == geometry::lesser(geometry::lesser(a.y as int, b.y as int), c.y as int),
        bbox.x + bbox.w == geometry::greater(geometry::greater(a.x + a.w, b.x + b.w), c.x + c.w),
        bbox.y + bbox.h == geometry::greater(geometry::greater(a.y + a.h, b.y + b.h), c.y + c.h),
{
    let x0 = min(min(a.x, b.x), c.x);
    let y0 = min(min(a.y, b.y), c.y);
    let x1 = max(max(a.x + a.w, b.x + b.w), c.x + c.w);
    let y1 = max(max(a.y + a.h, b.y + b.h), c.y + c.h);
    Rect { x: x0, y: y0, w: x1 - x0, h: y1 - y0 }
}

/// Where a row is in the window, whose list is at `list`.
pub fn cursor_rect(list: Rect, row: Rect) -> (rect: Rect)
    requires
        geometry::on_screen(list),
        geometry::on_screen(row),
    ensures
        rect.x == list.x + row.x,
        rect.y == list.y + row.y,
        rect.w == row.w,
        rect.h == row.h,
{
    Rect { x: list.x + row.x, y: list.y + row.y, w: row.w, h: row.h }
}

/// What a picture is taken of.
#[derive(Clone, Debug, PartialEq, Eq)]
pub enum Source<S = String> {
    /// The dialog on top.
    Modal,
    /// A part of the window, and the name that it was asked for by, if it was by one.
    Part { target: RectTarget, name: Option<S> },
    /// Nothing, and why.
    Refused { why: S },
}

impl View for Source<String> {
    type V = Source<Txt>;

    open spec fn view(&self) -> Source<Txt> {
        match *self {
            Source::Modal => Source::Modal,
            Source::Part { target, name } => Source::Part { target, name: name.deep_view() },
            Source::Refused { why } => Source::Refused { why: why@ },
        }
    }
}

/// The name that the parts of a request hold, if they hold one. A part that is a region on its
/// own is no name.
pub open spec fn base_name(segments: Seq<Txt>, first_is_region: bool) -> Option<Txt> {
    if segments.len() == 0 || (segments.len() == 1 && first_is_region) {
        None
    } else {
        Some(segments[0])
    }
}

/// The region that the parts of a request hold, if they hold one.
pub open spec fn region_text(segments: Seq<Txt>, first_is_region: bool) -> Option<Txt> {
    if segments.len() == 1 && first_is_region {
        Some(segments[0])
    } else if segments.len() == 2 {
        Some(segments[1])
    } else {
        None
    }
}

/// What a picture is taken of, by the parts of the request.
pub open spec fn source_of(
    spec_text: Txt,
    segments: Seq<Txt>,
    first_is_region: bool,
    modal_open: bool,
    active: Side,
) -> Source<Txt> {
    if segments.len() > 2 {
        Source::Refused { why: "bad snapshot spec: "@ + spec_text }
    } else {
        match base_name(segments, first_is_region) {
            None => Source::Part { target: RectTarget::Client, name: None },
            Some(name) => if name == "modal"@ || text::has_prefix(name, "modal_"@) {
                if modal_open {
                    Source::Modal
                } else {
                    Source::Refused { why: "no modal open"@ }
                }
            } else {
                match target_named(name, active) {
                    Some(target) => Source::Part { target, name: Some(name) },
                    None => Source::Refused { why: "unknown snapshot target: "@ + name },
                }
            },
        }
    }
}

/// The parts of a request for a picture: what stands between its slashes.
pub open spec fn segments_of(spec_text: Txt) -> Seq<Txt> {
    text::nonempty_parts(spec_text, '/')
}

/// What a picture is taken of. `first_is_region` says whether the first part of the request is a
/// region.
pub fn picture_source(spec_text: &str, first_is_region: bool, modal_open: bool, active: Side) -> (
    source: Source)
    ensures
        source@ == source_of(
            spec_text@,
            segments_of(spec_text@),
            first_is_region,
            modal_open,
            active,
        ),
{
    let segments = text::segments(spec_text, '/');
    assert(segments.deep_view().len() == segments@.len());
    if segments.len() > 2 {
        return Source::Refused { why: text::concat("bad snapshot spec: ", spec_text) };
    }
    if segments.len() == 0 || (segments.len() == 1 && first_is_region) {
        return Source::Part { target: RectTarget::Client, name: None };
    }
    assert(segments.deep_view()[0] == segments@[0]@);
    let name = segments[0].as_str();
    if text::same(name, "modal") || text::starts_with(name, "modal_") {
        return if modal_open {
            Source::Modal
        } else {
            Source::Refused { why: text::copy("no modal open") }
        };
    }
    match debug_rect(name, active) {
        Some(target) => Source::Part { target, name: Some(text::copy(name)) },
        None => Source::Refused { why: text::concat("unknown snapshot target: ", name) },
    }
}

/// The region that a picture is asked for of, if it is of one.
pub fn picture_region(spec_text: &str, first_is_region: bool) -> (asked: Option<String>)
    ensures
        asked.deep_view() == region_text(segments_of(spec_text@), first_is_region),
{
    let segments = text::segments(spec_text, '/');
    assert(segments.deep_view().len() == segments@.len());
    if segments.len() == 1 && first_is_region {
        assert(segments.deep_view()[0] == segments@[0]@);
        Some(text::copy(segments[0].as_str()))
    } else if segments.len() == 2 {
        assert(segments.deep_view()[1] == segments@[1]@);
        Some(text::copy(segments[1].as_str()))
    } else {
        None
    }
}

/// The rectangle of a picture: `base`, or the region that is asked for, from the corner of
/// `base`.
pub open spec fn rect_asked(base: Rect, asked: Option<Txt>, region: Option<Rect>) -> Result<
    Rect,
    Txt,
> {
    match asked {
        None => Ok(base),
        Some(words) => match region {
            Some(r) => Ok(
                Rect { x: (base.x + r.x) as i64, y: (base.y + r.y) as i64, w: r.w, h: r.h },
            ),
            None => Err("bad region: "@ + words),
        },
    }
}

/// The rectangle of a picture. `asked` is the region that is asked for, `region` what it is
/// read as.
pub fn picture_rect(base: Rect, asked: Option<&str>, region: Option<Rect>) -> (rect: Result<
    Rect,
    String,
>)
    requires
        geometry::on_screen(base),
        region matches Some(r) ==> geometry::on_screen(r),
    ensures
        match rect {
            Ok(r) => rect_asked(
                base,
                match asked {
                    Some(words) => Some(words@),
                    None => None,
                },
                region,
            ) == Ok::<Rect, Txt>(r),
            Err(why) => rect_asked(
                base,
                match asked {
                    Some(words) => Some(words@),
                    None => None,
                },
                region,
            ) == Err::<Rect, Txt>(why@),
        },
{
    match asked {
        None => Ok(base),
        Some(words) => match region {
            Some(r) => Ok(Rect { x: base.x + r.x, y: base.y + r.y, w: r.w, h: r.h }),
            None => Err(text::concat("bad region: ", words)),
        },
    }
}

/// One byte of a pixel in red, green, blue and opacity, of a picture whose bytes are in the
/// order blue, green, red. Outside the picture everything is clear.
pub open spec fn pixel_byte(full: Seq<u8>, cw: int, ch: int, x: int, y: int, byte: int) -> u8 {
    if x < 0 || x >= cw || y < 0 || y >= ch {
        0
    } else if byte == 3 {
        255
    } else {
        full[(y * cw + x) * 4 + (2 - byte)]
    }
}

/// The pixels of a rectangle of a picture.
pub open spec fn cropped(full: Seq<u8>, cw: int, ch: int, r: Rect) -> Seq<u8> {
    Seq::new(
        (r.w * r.h * 4) as nat,
        |i: int| pixel_byte(full, cw, ch, r.x + (i / 4) % (r.w as int), r.y + (i / 4) / (
        r.w as int), i % 4),
    )
}

proof fn lemma_pixel_index(row: int, col: int, w: int, byte: int)
    requires
        0 <= row,
        0 <= col < w,
        0 <= byte < 4,
    ensures
        ((row * w + col) * 4 + byte) / 4 == row * w + col,
        ((row * w + col) * 4 + byte) % 4 == byte,
        (row * w + col) % w == col,
        (row * w + col) / w == row,
{
    lemma_fundamental_div_mod_converse(row * w + col, w, row, col);
}

/// The pixels of a rectangle of a picture that is `cw` wide and `ch` high.
pub fn crop(full: &Vec<u8>, cw: i32, ch: i32, r: Rect) -> (out: Vec<u8>)
    requires
        r.w > 0,
        r.h > 0,
        r.w * r.h * 4 <= usize::MAX,
        cw > 0 && ch > 0 ==> cw * ch * 4 <= full@.len(),
    ensures
        out@ == cropped(full@, cw as int, ch as int, r),
{
    let mut out: Vec<u8> = Vec::new();
    let mut row: i64 = 0;
    assert(0 * r.w == 0);
    while row < r.h
        invariant
            0 <= row <= r.h,
            r.w > 0,
            out@.len() == row * r.w * 4,
            cw > 0 && ch > 0 ==> cw * ch * 4 <= full@.len(),
            forall|i: int|
                0 <= i < out@.len() ==> #[trigger] out@[i] == pixel_byte(
                    full@,
                    cw as int,
                    ch as int,
                    r.x + (i / 4) % (r.w as int),
                    r.y + (i / 4) / (r.w as int),
                    i % 4,
                ),
        decreases r.h - row,
    {
        let sy: i128 = r.y as i128 + row as i128;
        let mut col: i64 = 0;
        while col < r.w
            invariant
                0 <= row < r.h,
                0 <= col <= r.w,
                r.w > 0,
                sy == r.y + row,
                out@.len() == (row * r.w + col) * 4,
                cw > 0 && ch > 0 ==> cw * ch * 4 <= full@.len(),
                forall|i: int|
                    0 <= i < out@.len() ==> #[trigger] out@[i] == pixel_byte(
                        full@,
                        cw as int,
                        ch as int,
                        r.x + (i / 4) % (r.w as int),
                        r.y + (i / 4) / (r.w as int),
                        i % 4,
                    ),
            decreases r.w - col,
        {
            let sx: i128 = r.x as i128 + col as i128;
            proof {
                lemma_pixel_index(row as int, col as int, r.w as int, 0);
                lemma_pixel_index(row as int, col as int, r.w as int, 1);
                lemma_pixel_index(row as int, col as int, r.w as int, 2);
                lemma_pixel_index(row as int, col as int, r.w as int, 3);
            }
            if sx < 0 || sx >= cw as i128 || sy < 0 || sy >= ch as i128 {
                out.push(0);
                out.push(0);
                out.push(0);
                out.push(0);
            } else {
                assert(0 <= sy * cw <= (ch - 1) * cw) by (nonlinear_arith)
                    requires
                        0 <= sy < ch,
                        0 < cw,
                ;
                assert((ch - 1) * cw + cw == cw * ch) by (nonlinear_arith);
                assert(sy * cw <= i32::MAX * i32::MAX) by (nonlinear_arith)
                    requires
                        0 <= sy < ch,
                        0 < cw <= i32::MAX,
                        ch <= i32::MAX,
                ;
                assert((sy * cw + sx) * 4 + 3 < cw * ch * 4);
                assert(full@.len() == full.len());
                let at: usize = ((sy * cw as i128 + sx) * 4) as usize;
                assert(at == (sy * cw + sx) * 4);
                out.push(full[at + 2]);
                out.push(full[at + 1]);
                out.push(full[at]);
                out.push(255);
            }
            col += 1;
        }
        assert(row * r.w + r.w == (row + 1) * r.w) by (nonlinear_arith);
        row += 1;
    }
    assert(r.h * r.w == r.w * r.h) by (nonlinear_arith);
    assert(out@ =~= cropped(full@, cw as int, ch as int, r));
    out
}

/// A picture as a PNG file, or why there is none.
pub uninterp spec fn png_file(width: u32, height: u32, rgba: Seq<u8>) -> Result<
    Seq<u8>,
    Seq<char>,
>;

/// `image::RgbaImage::from_raw` and `ImageBuffer::write_to` with the PNG format, into memory.
/// What is written, or the error's text, depends on the size and the pixels alone. The buffer
/// holds four bytes a pixel, which is what `from_raw` asks for.
#[verifier::external_body]
fn encode_png(width: u32, height: u32, rgba: Vec<u8>) -> (png: Result<Vec<u8>, String>)
    requires
        rgba@.len() == width * height * 4,
    ensures
        match png {
            Ok(bytes) => png_file(width, height, rgba@) == Ok::<Seq<u8>, Seq<char>>(bytes@),
            Err(why) => png_file(width, height, rgba@) == Err::<Seq<u8>, Seq<char>>(why@),
        },
{
    let Some(img) = image::RgbaImage::from_raw(width, height, rgba) else {
        return Err(String::from("rgba buffer size mismatch"));
    };
    let mut out = std::io::Cursor::new(Vec::new());
    match img.write_to(&mut out, image::ImageFormat::Png) {
        Ok(()) => Ok(out.into_inner()),
        Err(e) => Err(e.to_string()),
    }
}

/// What is answered with a picture, or with what went wrong.
pub open spec fn picture_answer(png: Result<Seq<u8>, Txt>) -> debug_server::ResponseModel {
    match png {
        Ok(bytes) => Response::Png(bytes),
        Err(why) => Response::Error("snapshot error: "@ + why),
    }
}

/// What is answered with a picture, or with what went wrong.
pub fn answer_picture(png: Result<Vec<u8>, String>) -> (response: Response)
    ensures
        match png {
            Ok(bytes) => response@ == picture_answer(Ok(bytes@)),
            Err(why) => response@ == picture_answer(Err(why@)),
        },
{
    match png {
        Ok(bytes) => Response::Png(bytes),
        Err(why) => Response::Error(text::concat("snapshot error: ", why.as_str())),
    }
}

/// The picture of a rectangle of the window as a PNG file.
pub open spec fn png_of_rect(full: Seq<u8>, cw: int, ch: int, r: Rect) -> Result<Seq<u8>, Txt> {
    if r.w <= 0 || r.h <= 0 {
        Err("empty snapshot region"@)
    } else {
        png_file(r.w as u32, r.h as u32, cropped(full, cw, ch, r))
    }
}

/// The picture of a rectangle of the window as a PNG file. `full` is the whole window, `cw`
/// wide and `ch` high, four bytes a pixel.
pub fn crop_bgra_to_png(full: &Vec<u8>, cw: i32, ch: i32, r: Rect) -> (png: Result<Vec<u8>, String>)
    requires
        r.w > 0 && r.h > 0 ==> r.w * r.h * 4 <= usize::MAX,
        r.w <= u32::MAX,
        r.h <= u32::MAX,
        cw > 0 && ch > 0 ==> cw * ch * 4 <= full@.len(),
    ensures
        match png {
            Ok(bytes) => png_of_rect(full@, cw as int, ch as int, r) == Ok::<Seq<u8>, Txt>(bytes@),
            Err(why) => png_of_rect(full@, cw as int, ch as int, r) == Err::<Seq<u8>, Txt>(why@),
        },
{
    if r.w <= 0 || r.h <= 0 {
        return Err(text::copy("empty snapshot region"));
    }
    let rgba = crop(full, cw, ch, r);
    encode_png(r.w as u32, r.h as u32, rgba)
}

/// Whether a rectangle of this size can be held, four bytes a pixel.
pub open spec fn fits_memory(r: Rect) -> bool {
    &&& r.w <= i32::MAX
    &&& r.h <= i32::MAX
    &&& r.w > 0 && r.h > 0 ==> r.w * r.h * 4 <= usize::MAX
}

/// What is answered with a picture of `base`, or of the region of it that is asked for.
pub open spec fn snapshot_answer(
    full: Seq<u8>,
    cw: int,
    ch: int,
    base: Rect,
    asked: Option<Txt>,
    region: Option<Rect>,
) -> debug_server::ResponseModel {
    match rect_asked(base, asked, region) {
        Ok(r) => picture_answer(png_of_rect(full, cw, ch, r)),
        Err(why) => Response::BadRequest(why),
    }
}

/// What is answered with a picture of `base`, or of the region of it that is asked for. `full` is
/// the whole window or dialog, `cw` wide and `ch` high, four bytes a pixel; `asked` is the region
/// that is asked for, `region` what it is read as.
pub fn debug_snapshot_inner(
    full: &Vec<u8>,
    cw: i32,
    ch: i32,
    base: Rect,
    asked: Option<&str>,
    region: Option<Rect>,
) -> (response: Response)
    requires
        geometry::on_screen(base),
        region matches Some(r) ==> geometry::on_screen(r),
        cw > 0 && ch > 0 ==> cw * ch * 4 <= full@.len(),
        asked is None ==> fits_memory(base),
        region matches Some(r) ==> fits_memory(r),
    ensures
        response@ == snapshot_answer(
            full@,
            cw as int,
            ch as int,
            base,
            match asked {
                Some(words) => Some(words@),
                None => None,
            },
            region,
        ),
{
    match picture_rect(base, asked, region) {
        Ok(r) => answer_picture(crop_bgra_to_png(full, cw, ch, r)),
        Err(why) => Response::BadRequest(why),
    }
}

/// Where a picture is taken of what is asked for, or what is answered instead: nothing for the
/// whole of a dialog. `rect` is where the part of the window is, if it is anywhere.
pub open spec fn base_of(source: Source<Txt>, rect: Option<Rect>) -> Result<
    Option<Rect>,
    debug_server::ResponseModel,
> {
    match source {
        Source::Refused { why } => Err(Response::BadRequest(why)),
        Source::Modal => Ok(None),
        Source::Part { name, .. } => match (rect, name) {
            (Some(r), _) => Ok(Some(r)),
            (None, Some(n)) => Err(Response::BadRequest("unknown snapshot target: "@ + n)),
            (None, None) => Err(Response::Error("no client rect"@)),
        },
    }
}

/// Where a picture is taken of what is asked for, or what is answered instead.
pub fn picture_base(source: Source, rect: Option<Rect>) -> (base: Result<Option<Rect>, Response>)
    ensures
        match base {
            Ok(r) => base_of(source@, rect) == Ok::<Option<Rect>, debug_server::ResponseModel>(r),
            Err(response) => base_of(source@, rect) == Err::<
                Option<Rect>,
                debug_server::ResponseModel,
            >(response@),
        },
{
    match source {
        Source::Refused { why } => Err(Response::BadRequest(why)),
        Source::Modal => Ok(None),
        Source::Part { name, .. } => match (rect, name) {
            (Some(r), _) => Ok(Some(r)),
            (None, Some(n)) => Err(
                Response::BadRequest(text::concat("unknown snapshot target: ", n.as_str())),
            ),
            (None, None) => Err(Response::Error(text::copy("no client rect"))),
        },
    }
}

/// The pixels of the window or of a dialog, four bytes each.
#[derive(Clone, Debug, PartialEq, Eq)]
pub struct Shot {
    pub pixels: Vec<u8>,
    pub w: i32,
    pub h: i32,
}

impl Shot {
    /// Whether there are as many bytes as pixels ask for.
    pub open spec fn wf(self) -> bool {
        self.w > 0 && self.h > 0 ==> self.w * self.h * 4 <= self.pixels@.len()
    }
}

/// The whole of a picture.
pub open spec fn whole_of(shot: Shot) -> Rect {
    Rect { x: 0, y: 0, w: shot.w as i64, h: shot.h as i64 }
}

/// What is answered to a request for a picture. What cannot be asked for is answered before a
/// picture is taken.
pub open spec fn snapshot_reply(
    source: Source<Txt>,
    rect: Option<Rect>,
    shot: Result<Shot, Txt>,
    asked: Option<Txt>,
    region: Option<Rect>,
) -> debug_server::ResponseModel {
    match base_of(source, rect) {
        Err(response) => response,
        Ok(base) => match shot {
            Err(why) => picture_answer(Err(why)),
            Ok(s) => snapshot_answer(
                s.pixels@,
                s.w as int,
                s.h as int,
                match base {
                    Some(r) => r,
                    None => whole_of(s),
                },
                asked,
                region,
            ),
        },
    }
}

/// What is answered to a request for a picture. `rect` is where the part of the window is that is
/// asked for, `shot` the window or the dialog, or why it could not be had; `asked` is the region
/// that is asked for, `region` what it is read as.
pub fn debug_snapshot(
    source: Source,
    rect: Option<Rect>,
    shot: Result<Shot, String>,
    asked: Option<&str>,
    region: Option<Rect>,
) -> (response: Response)
    requires
        rect matches Some(r) ==> geometry::on_screen(r) && (asked is None ==> fits_memory(r)),
        region matches Some(r) ==> geometry::on_screen(r) && fits_memory(r),
        shot matches Ok(s) ==> s.wf(),
    ensures
        response@ == snapshot_reply(
            source@,
            rect,
            match shot {
                Ok(s) => Ok(s),
                Err(why) => Err(why@),
            },
            match asked {
                Some(words) => Some(words@),
                None => None,
            },
            region,
        ),
{
    match picture_base(source, rect) {
        Err(response) => response,
        Ok(base) => match shot {
            Err(why) => answer_picture(Err(why)),
            Ok(s) => {
                let base = match base {
                    Some(r) => r,
                    None => Rect { x: 0, y: 0, w: s.w as i64, h: s.h as i64 },
                };
                assert(s.pixels@.len() == s.pixels.len());
                debug_snapshot_inner(&s.pixels, s.w, s.h, base, asked, region)
            },
        },
    }
}

/// Each pixel of a rectangle is the pixel of the whole at the same place, counted from the
/// corner of the rectangle.
pub proof fn law_crop_keeps_pixels(
    full: Seq<u8>,
    cw: int,
    ch: int,
    outer: Rect,
    x: int,
    y: int,
    byte: int,
)
    requires
        0 <= x < outer.w,
        0 <= y < outer.h,
        0 <= byte < 4,
    ensures
        cropped(full, cw, ch, outer)[(y * outer.w + x) * 4 + byte] == pixel_byte(
            full,
            cw,
            ch,
            outer.x + x,
            outer.y + y,
            byte,
        ),
{
    lemma_pixel_index(y, x, outer.w as int, byte);
    assert((y * outer.w + x) * 4 + byte < outer.w * outer.h * 4) by (nonlinear_arith)
        requires
            0 <= x < outer.w,
            0 <= y < outer.h,
            0 <= byte < 4,
    ;
    assert(0 <= y * outer.w) by (nonlinear_arith)
        requires
            0 <= y,
            0 <= outer.w,
    ;
}

} // verus!

//! Messages with buttons.

use crate::dialog::{Control, ControlKind, Form, FormModel, ID_CANCEL, ID_OK};
use crate::dialog::completer::KeyMessage;
use crate::dialog::control;
use crate::dialog::Registration;
use crate::dialog;
use crate::geometry;
use crate::text;
use vstd::prelude::*;

verus! {

/// A text in specifications.
pub type Txt = Seq<char>;

/// What a message looks like and asks.
#[derive(Clone, Copy, Debug, PartialEq, Eq, Structural)]
pub enum MessageStyle {
    OkOnly,
    OkCancel,
    AbortRetryIgnore,
    YesNo,
    YesNoCancel,
    YesNoAll,
    YesNoCancelAll,
    RetryCancel,
    Warning,
    Error,
}

/// What the user answered.
#[derive(Clone, Copy, Debug, PartialEq, Eq, Structural)]
pub enum MessageResult {
    Okay,
    Cancel,
    Abort,
    Retry,
    Ignore,
    Yes,
    No,
    YesAll,
    NoAll,
}

/// The picture beside a message.
#[derive(Clone, Copy, Debug, PartialEq, Eq, Structural)]
pub enum Icon {
    Information,
    Question,
    Warning,
    Error,
}

/// The style that a number stands for.
pub open spec fn style_of(code: int) -> Option<MessageStyle> {
    if code == 1 {
        Some(MessageStyle::OkOnly)
    } else if code == 2 {
        Some(MessageStyle::OkCancel)
    } else if code == 3 {
        Some(MessageStyle::AbortRetryIgnore)
    } else if code == 4 {
        Some(MessageStyle::YesNo)
    } else if code == 5 {
        Some(MessageStyle::YesNoCancel)
    } else if code == 6 {
        Some(MessageStyle::YesNoAll)
    } else if code == 7 {
        Some(MessageStyle::YesNoCancelAll)
    } else if code == 8 {
        Some(MessageStyle::RetryCancel)
    } else if code == 9 {
        Some(MessageStyle::Warning)
    } else if code == 10 {
        Some(MessageStyle::Error)
    } else {
        None
    }
}

/// The picture beside a message of a style.
pub open spec fn icon_of(style: MessageStyle) -> Icon {
    match style {
        MessageStyle::OkOnly => Icon::Information,
        MessageStyle::Warning => Icon::Warning,
        MessageStyle::Error => Icon::Error,
        _ => Icon::Question,
    }
}

/// What it comes to when a message is closed without a button.
pub open spec fn unanswered(style: MessageStyle) -> MessageResult {
    match style {
        MessageStyle::OkOnly | MessageStyle::Warning | MessageStyle::Error => MessageResult::Okay,
        MessageStyle::OkCancel | MessageStyle::RetryCancel => MessageResult::Cancel,
        MessageStyle::AbortRetryIgnore => MessageResult::Abort,
        _ => MessageResult::No,
    }
}

/// Whether the answer can be made to hold for all that follows.
pub open spec fn asks_for_all(style: MessageStyle) -> bool {
    style == MessageStyle::YesNoAll || style == MessageStyle::YesNoCancelAll
}

/// The buttons of a style, and what they mean. The first is the one that Enter pushes.
pub open spec fn buttons_of(style: MessageStyle) -> Seq<(&'static str, MessageResult)> {
    match style {
        MessageStyle::OkOnly | MessageStyle::Warning | MessageStyle::Error => seq![("OK", MessageResult::Okay)],
        MessageStyle::OkCancel => seq![("OK", MessageResult::Okay), ("キャンセル", MessageResult::Cancel)],
        MessageStyle::YesNo | MessageStyle::YesNoAll => seq![("はい(&Y)", MessageResult::Yes), ("いいえ(&N)", MessageResult::No)],
        MessageStyle::YesNoCancel | MessageStyle::YesNoCancelAll => seq![("はい(&Y)", MessageResult::Yes), ("いいえ(&N)", MessageResult::No), ("キャンセル", MessageResult::Cancel)],
        MessageStyle::AbortRetryIgnore => seq![("中止(&A)", MessageResult::Abort), ("再試行(&R)", MessageResult::Retry), ("無視(&I)", MessageResult::Ignore)],
        MessageStyle::RetryCancel => seq![("再試行(&R)", MessageResult::Retry), ("キャンセル", MessageResult::Cancel)],
    }
}

/// The button that Escape pushes.
pub open spec fn escape_button(style: MessageStyle) -> int {
    match style {
        MessageStyle::OkOnly | MessageStyle::Warning | MessageStyle::Error => 0,
        _ => 1,
    }
}

impl MessageStyle {
    /// The number of a style.
    pub fn code(self) -> (n: i32)
        ensures
            style_of(n as int) == Some(self),
    {
        match self {
            MessageStyle::OkOnly => 1,
            MessageStyle::OkCancel => 2,
            MessageStyle::AbortRetryIgnore => 3,
            MessageStyle::YesNo => 4,
            MessageStyle::YesNoCancel => 5,
            MessageStyle::YesNoAll => 6,
            MessageStyle::YesNoCancelAll => 7,
            MessageStyle::RetryCancel => 8,
            MessageStyle::Warning => 9,
            MessageStyle::Error => 10,
        }
    }

    /// The style that a number stands for.
    pub fn from_code(code: i32) -> (style: Option<MessageStyle>)
        ensures
            style == style_of(code as int),
    {
        match code {
            1 => Some(MessageStyle::OkOnly),
            2 => Some(MessageStyle::OkCancel),
            3 => Some(MessageStyle::AbortRetryIgnore),
            4 => Some(MessageStyle::YesNo),
            5 => Some(MessageStyle::YesNoCancel),
            6 => Some(MessageStyle::YesNoAll),
            7 => Some(MessageStyle::YesNoCancelAll),
            8 => Some(MessageStyle::RetryCancel),
            9 => Some(MessageStyle::Warning),
            10 => Some(MessageStyle::Error),
            _ => None,
        }
    }

    /// The picture beside the message.
    pub fn icon(self) -> (icon: Icon)
        ensures
            icon == icon_of(self),
    {
        match self {
            MessageStyle::OkOnly => Icon::Information,
            MessageStyle::Warning => Icon::Warning,
            MessageStyle::Error => Icon::Error,
            _ => Icon::Question,
        }
    }

    /// What it comes to when the message is closed without a button.
    pub fn default_result(self) -> (result: MessageResult)
        ensures
            result == unanswered(self),
    {
        match self {
            MessageStyle::OkOnly | MessageStyle::Warning | MessageStyle::Error =>
                MessageResult::Okay,
            MessageStyle::OkCancel | MessageStyle::RetryCancel => MessageResult::Cancel,
            MessageStyle::AbortRetryIgnore => MessageResult::Abort,
            _ => MessageResult::No,
        }
    }

    /// Whether the answer can be made to hold for all that follows.
    pub fn has_all_checkbox(self) -> (yes: bool)
        ensures
            yes == asks_for_all(self),
    {
        match self {
            MessageStyle::YesNoAll | MessageStyle::YesNoCancelAll => true,
            _ => false,
        }
    }

    /// The buttons, and what they mean.
    pub fn buttons(self) -> (buttons: Vec<(&'static str, MessageResult)>)
        ensures
            buttons@ == buttons_of(self),
    {
        let buttons = match self {
            MessageStyle::OkOnly | MessageStyle::Warning | MessageStyle::Error => vec![("OK", MessageResult::Okay)],
            MessageStyle::OkCancel => vec![("OK", MessageResult::Okay), ("キャンセル", MessageResult::Cancel)],
            MessageStyle::YesNo | MessageStyle::YesNoAll => vec![("はい(&Y)", MessageResult::Yes), ("いいえ(&N)", MessageResult::No)],
            MessageStyle::YesNoCancel | MessageStyle::YesNoCancelAll => vec![("はい(&Y)", MessageResult::Yes), ("いいえ(&N)", MessageResult::No), ("キャンセル", MessageResult::Cancel)],
            MessageStyle::AbortRetryIgnore => vec![("中止(&A)", MessageResult::Abort), ("再試行(&R)", MessageResult::Retry), ("無視(&I)", MessageResult::Ignore)],
            MessageStyle::RetryCancel => vec![("再試行(&R)", MessageResult::Retry), ("キャンセル", MessageResult::Cancel)],
        };
        assert(buttons@ =~= buttons_of(self));
        buttons
    }

    /// The button that Escape pushes.
    pub fn cancel_index(self) -> (i: usize)
        ensures
            i == escape_button(self),
    {
        match self {
            MessageStyle::OkOnly | MessageStyle::Warning | MessageStyle::Error => 0,
            _ => 1,
        }
    }
}

/// What an answer is where it may hold for all.
pub open spec fn for_all(base: MessageResult, all: bool) -> MessageResult {
    match base {
        MessageResult::Yes if all => MessageResult::YesAll,
        MessageResult::No if all => MessageResult::NoAll,
        other => other,
    }
}

/// What an answer is where it may hold for all.
pub fn finalize(base: MessageResult, all_checked: bool) -> (result: MessageResult)
    ensures
        result == for_all(base, all_checked),
{
    match base {
        MessageResult::Yes => if all_checked {
            MessageResult::YesAll
        } else {
            MessageResult::Yes
        },
        MessageResult::No => if all_checked {
            MessageResult::NoAll
        } else {
            MessageResult::No
        },
        other => other,
    }
}

/// What a message comes to: `pressed` is the button that was pushed, if one was; `all` whether
/// it was checked that the answer holds for all.
pub fn message_box(style: MessageStyle, pressed: Option<usize>, all: bool) -> (result: MessageResult)
    requires
        pressed matches Some(i) ==> i < buttons_of(style).len(),
    ensures
        result == (match pressed {
            Some(i) => for_all(
                buttons_of(style)[i as int].1,
                all && asks_for_all(style),
            ),
            None => unanswered(style),
        }),
{
    match pressed {
        Some(i) => {
            let buttons = style.buttons();
            finalize(buttons[i].1, all && style.has_all_checkbox())
        },
        None => style.default_result(),
    }
}

/// The width of a button.
pub const BUTTON_W: i32 = 96;

/// What lies between two buttons.
pub const BUTTON_GAP: i32 = 8;

/// Where the text of a message starts: beside its picture.
pub const LABEL_X: i32 = 56;

/// How wide the buttons of a style are together.
pub open spec fn buttons_w(style: MessageStyle) -> int {
    buttons_of(style).len() * BUTTON_W + (buttons_of(style).len() - 1) * BUTTON_GAP
}

/// How wide a message is: there is room for the text and for the buttons.
pub open spec fn message_w(style: MessageStyle, label_w: int) -> int {
    geometry::greater(LABEL_X + label_w + 16, buttons_w(style) + 32)
}

/// The upper edge of the buttons. The check for all has a row of its own above them.
pub open spec fn message_buttons_y(style: MessageStyle, label_h: int) -> int {
    if asks_for_all(style) {
        18 + label_h + 42
    } else {
        18 + label_h + 16
    }
}

/// What a button is known by: Enter pushes the first, Escape the one that cancels.
pub open spec fn button_id(style: MessageStyle, i: int) -> u16 {
    if buttons_of(style).len() == 1 {
        ID_CANCEL
    } else if i == 0 {
        ID_OK
    } else if i == escape_button(style) {
        ID_CANCEL
    } else {
        (100 + i) as u16
    }
}

/// What a button is known by.
fn id_of_button(style: MessageStyle, i: usize) -> (id: u16)
    requires
        i < buttons_of(style).len(),
    ensures
        id == button_id(style, i as int),
{
    if style.buttons().len() == 1 {
        ID_CANCEL
    } else if i == 0 {
        ID_OK
    } else if i == style.cancel_index() {
        ID_CANCEL
    } else {
        100 + i as u16
    }
}

/// A button of a message.
pub open spec fn message_button(
    style: MessageStyle,
    label_w: int,
    label_h: int,
    i: int,
) -> Control<Txt> {
    dialog::ctl(
        if i == 0 {
            ControlKind::DefaultButton
        } else {
            ControlKind::Button
        },
        button_id(style, i),
        buttons_of(style)[i].0@,
        ((message_w(style, label_w) - buttons_w(style)) / 2 + i * (BUTTON_W + BUTTON_GAP)) as i32,
        message_buttons_y(style, label_h) as i32,
        BUTTON_W,
        26,
    )
}

/// The check that the answer holds for all, where the style asks for it.
pub open spec fn all_check(style: MessageStyle, label_h: int) -> Seq<Control<Txt>> {
    if asks_for_all(style) {
        seq![
            dialog::ctl(
                ControlKind::CheckBox,
                0,
                "すべてに適用(&A)"@,
                16,
                (18 + label_h + 12) as i32,
                160,
                18,
            ),
        ]
    } else {
        Seq::empty()
    }
}

/// A message whose text is `label_w` wide and `label_h` high.
pub open spec fn message_form(
    title: Txt,
    wrapped: Txt,
    style: MessageStyle,
    label_w: int,
    label_h: int,
) -> FormModel {
    Form {
        title,
        w: message_w(style, label_w) as i32,
        h: (message_buttons_y(style, label_h) + 26 + 22) as i32,
        controls: seq![
            dialog::ctl(
                ControlKind::Label,
                0,
                wrapped,
                LABEL_X,
                18,
                label_w as i32,
                label_h as i32,
            ),
        ] + all_check(style, label_h) + Seq::new(
            buttons_of(style).len(),
            |i: int| message_button(style, label_w, label_h, i),
        ),
    }
}

/// A message whose text is `label_w` wide and `label_h` high.
pub fn message_box_form(
    title: &str,
    wrapped: &str,
    style: MessageStyle,
    label_w: i32,
    label_h: i32,
) -> (form: Form)
    requires
        0 <= label_w <= i32::MAX - 1000,
        0 <= label_h <= i32::MAX - 1000,
    ensures
        form@ == message_form(title@, wrapped@, style, label_w as int, label_h as int),
{
    let buttons = style.buttons();
    let n: i32 = buttons.len() as i32;
    let total: i32 = n * BUTTON_W + (n - 1) * BUTTON_GAP;
    let w: i32 = if LABEL_X + label_w + 16 <= total + 32 {
        total + 32
    } else {
        LABEL_X + label_w + 16
    };
    let all = style.has_all_checkbox();
    let y: i32 = if all {
        18 + label_h + 42
    } else {
        18 + label_h + 16
    };
    let mut c: Vec<Control> = Vec::new();
    c.push(control(ControlKind::Label, 0, wrapped, LABEL_X, 18, label_w, label_h));
    if all {
        c.push(
            control(ControlKind::CheckBox, 0, "すべてに適用(&A)", 16, 18 + label_h + 12, 160, 18),
        );
    }
    let ghost upper = dialog::controls_of(c@);
    let x0: i32 = (w - total) / 2;
    let mut i: usize = 0;
    while i < buttons.len()
        invariant
            i <= buttons.len(),
            buttons@ == buttons_of(style),
            n == buttons.len(),
            total == buttons_w(style),
            w == message_w(style, label_w as int),
            y == message_buttons_y(style, label_h as int),
            x0 == (w - total) / 2,
            0 <= label_w <= i32::MAX - 1000,
            dialog::controls_of(c@) =~= upper + Seq::new(
                i as nat,
                |j: int| message_button(style, label_w as int, label_h as int, j),
            ),
        decreases buttons.len() - i,
    {
        let id: u16 = id_of_button(style, i);
        let kind = if i == 0 {
            ControlKind::DefaultButton
        } else {
            ControlKind::Button
        };
        let x: i32 = x0 + i as i32 * (BUTTON_W + BUTTON_GAP);
        let button = control(kind, id, buttons[i].0, x, y, BUTTON_W, 26);
        assert(buttons_of(style).len() <= 3);
        assert(id == button_id(style, i as int));
        assert(button@ == message_button(style, label_w as int, label_h as int, i as int));
        let ghost before = dialog::controls_of(c@);
        c.push(button);
        assert(dialog::controls_of(c@) =~= before.push(button@));
        i += 1;
    }
    let form = Form { title: text::copy(title), w, h: y + 26 + 22, controls: c };
    assert(form@.controls =~= message_form(
        title@,
        wrapped@,
        style,
        label_w as int,
        label_h as int,
    ).controls);
    form
}

/// The least and the greatest width of the text of a message.
pub const LEAST_LABEL_W: i64 = 300;

pub const GREATEST_LABEL_W: i64 = 560;

/// How wide the text of a message is at the standard resolution, whose longest line is
/// `natural` wide on the screen; a thousand pixels are `scale` there.
pub open spec fn label_width(natural: int, scale: int) -> int {
    let wide = natural * 1000 / (if scale < 1 {
        1
    } else {
        scale
    }) + 8;
    if wide < LEAST_LABEL_W {
        LEAST_LABEL_W as int
    } else if wide > GREATEST_LABEL_W {
        GREATEST_LABEL_W as int
    } else {
        wide
    }
}

/// The greatest of some widths, and of zero.
pub open spec fn widest(widths: Seq<i32>) -> int
    decreases widths.len(),
{
    if widths.len() == 0 {
        0
    } else {
        geometry::greater(widest(widths.drop_last()), widths.last() as int)
    }
}

/// How wide the text of a message is, whose lines are `widths` wide on the screen.
pub fn measure_width(widths: &Vec<i32>, scale: i32) -> (w: i64)
    ensures
        w == label_width(widest(widths@), scale as int),
{
    let mut natural: i64 = 0;
    let mut i: usize = 0;
    assert(widths@.take(0).len() == 0);
    while i < widths.len()
        invariant
            i <= widths.len(),
            natural == widest(widths@.take(i as int)),
            0 <= natural <= i32::MAX,
        decreases widths.len() - i,
    {
        assert(widths@.take(i + 1).drop_last() =~= widths@.take(i as int));
        let w: i64 = widths[i] as i64;
        if w > natural {
            natural = w;
        }
        i += 1;
    }
    assert(widths@.take(widths@.len() as int) =~= widths@);
    let s: i64 = if scale < 1 {
        1
    } else {
        scale as i64
    };
    let wide: i64 = natural * 1000 / s;
    assert(wide <= natural * 1000) by (nonlinear_arith)
        requires
            wide == natural * 1000 / s as int,
            natural >= 0,
            s >= 1,
    ;
    if wide + 8 < LEAST_LABEL_W {
        LEAST_LABEL_W
    } else if wide + 8 > GREATEST_LABEL_W {
        GREATEST_LABEL_W
    } else {
        wide + 8
    }
}

/// How high the text of a message is at the standard resolution: `lines` lines of `line_h` on
/// the screen, rounded up, and a little more.
pub open spec fn label_height(lines: int, line_h: int, scale: int) -> int {
    let s = if scale < 1 {
        1
    } else {
        scale
    };
    geometry::greater((lines * line_h * 1000 + s - 1) / s, 18) + 6
}

/// How high the text of a message is.
pub fn measure_height(lines: usize, line_h: i32, scale: i32) -> (h: i128)
    requires
        line_h >= 0,
    ensures
        h == label_height(lines as int, line_h as int, scale as int),
{
    let s: i128 = if scale < 1 {
        1
    } else {
        scale as i128
    };
    let n: i128 = lines as i128;
    let l: i128 = line_h as i128;
    assert(0 <= n * l <= 0xFFFF_FFFF_FFFF_FFFF * 0x7FFF_FFFF) by (nonlinear_arith)
        requires
            0 <= n <= 0xFFFF_FFFF_FFFF_FFFF,
            0 <= l <= 0x7FFF_FFFF,
    ;
    let high: i128 = (n * l * 1000 + s - 1) / s;
    assert(high <= n * l * 1000 + s - 1) by (nonlinear_arith)
        requires
            high == (n * l * 1000 + s - 1) / s as int,
            n * l >= 0,
            s >= 1,
    ;
    if high <= 18 {
        24
    } else {
        high + 6
    }
}

/// How wide each piece of a line is: `widths[a][n]` is the width of the `n` characters that
/// start at `a`.
pub open spec fn measures(widths: Seq<Vec<i32>>, len: nat) -> bool {
    &&& widths.len() == len + 1
    &&& forall|a: int| 0 <= a <= len ==> (#[trigger] widths[a])@.len() == len - a + 1
    &&& forall|a: int| 0 <= a <= len ==> (#[trigger] widths[a])@[0] == 0
}

/// The width of the piece from `a` to `b`.
pub open spec fn piece_w(widths: Seq<Vec<i32>>, a: int, b: int) -> int {
    widths[a]@[b - a] as int
}

/// The width of the piece from `a` to `b`.
fn piece_width(widths: &Vec<Vec<i32>>, a: usize, b: usize, len: usize) -> (w: i32)
    requires
        measures(widths@, len as nat),
        a <= b <= len,
    ensures
        w == piece_w(widths@, a as int, b as int),
{
    assert(widths@[a as int]@.len() == len - a + 1);
    widths[a][b - a]
}

/// How many characters of the piece from `a` to `b` fit, one after the other, but for its last;
/// `n` are known to.
pub open spec fn fitting(widths: Seq<Vec<i32>>, a: int, b: int, max: int, n: int) -> int
    decreases b - a - n,
{
    if a + n + 1 < b && piece_w(widths, a, a + n + 1) <= max {
        fitting(widths, a, b, max, n + 1)
    } else {
        n
    }
}

/// Where a piece that is too wide is broken: behind what fits, but behind one character at
/// least.
pub open spec fn break_at(widths: Seq<Vec<i32>>, a: int, b: int, max: int) -> int {
    let n = fitting(widths, a, b, max, 0);
    if n <= 0 {
        a + 1
    } else {
        a + n
    }
}

/// The lines that a word from `a` to `b` fills by itself.
pub open spec fn broken(widths: Seq<Vec<i32>>, a: int, b: int, max: int) -> Seq<(int, int)>
    decreases b - a,
{
    if a < b && piece_w(widths, a, b) > max {
        let at = break_at(widths, a, b, max);
        if a < at <= b {
            seq![(a, at)] + broken(widths, at, b, max)
        } else {
            Seq::empty()
        }
    } else {
        Seq::empty()
    }
}

/// Where what is left of a word starts when it has filled lines by itself.
pub open spec fn left_over(widths: Seq<Vec<i32>>, a: int, b: int, max: int) -> int
    decreases b - a,
{
    if a < b && piece_w(widths, a, b) > max {
        let at = break_at(widths, a, b, max);
        if a < at <= b {
            left_over(widths, at, b, max)
        } else {
            a
        }
    } else {
        a
    }
}

/// The end of the word that starts at `from`.
pub open spec fn word_end(line: Txt, from: int) -> int {
    match text::first_occurrence(line, ' ', from) {
        Some(i) => i,
        None => line.len() as int,
    }
}

/// The lines that a line that is too wide is broken into, from the word at `pos` on; the line
/// that is being filled is from `cs` to `ce`.
pub open spec fn wrapped_from(
    line: Txt,
    widths: Seq<Vec<i32>>,
    max: int,
    cs: int,
    ce: int,
    pos: int,
) -> Seq<(int, int)>
    decreases line.len() + 1 - pos,
{
    if pos < 0 || pos > line.len() {
        seq![(cs, ce)]
    } else {
        let end = word_end(line, pos);
        let start = if cs == ce {
            pos
        } else {
            cs
        };
        if end < pos || end > line.len() {
            Seq::empty()
        } else if piece_w(widths, start, end) <= max {
            wrapped_from(line, widths, max, start, end, end + 1)
        } else {
            (if cs == ce {
                Seq::empty()
            } else {
                seq![(cs, ce)]
            }) + broken(widths, pos, end, max) + wrapped_from(
                line,
                widths,
                max,
                left_over(widths, pos, end, max),
                end,
                end + 1,
            )
        }
    }
}

/// The lines that a line is broken into. Lines are broken at spaces; a word that is too wide by
/// itself is broken anywhere.
pub open spec fn wrapped_line(line: Txt, widths: Seq<Vec<i32>>, max: int) -> Seq<(int, int)> {
    if piece_w(widths, 0, line.len() as int) <= max {
        seq![(0, line.len() as int)]
    } else {
        wrapped_from(line, widths, max, 0, 0, 0)
    }
}

/// A place in a line, from where to where.
pub open spec fn pieces_of(pieces: Seq<(usize, usize)>) -> Seq<(int, int)> {
    pieces.map_values(|p: (usize, usize)| (p.0 as int, p.1 as int))
}

/// Breaks the word from `a` to `b` into lines, and says where what is left of it starts.
fn break_word(
    widths: &Vec<Vec<i32>>,
    a: usize,
    b: usize,
    len: usize,
    max: i32,
    out: &mut Vec<(usize, usize)>,
) -> (rest: usize)
    requires
        measures(widths@, len as nat),
        a <= b <= len,
    ensures
        a <= rest <= b,
        rest == left_over(widths@, a as int, b as int, max as int),
        pieces_of(final(out)@) == pieces_of(old(out)@) + broken(
            widths@,
            a as int,
            b as int,
            max as int,
        ),
        forall|i: int|
            old(out)@.len() <= i < final(out)@.len() ==> (#[trigger] final(out)@[i]).0
                <= final(out)@[i].1 <= len,
        forall|i: int| 0 <= i < old(out)@.len() ==> #[trigger] final(out)@[i] == old(out)@[i],
        old(out)@.len() <= final(out)@.len(),
{
    let mut rest: usize = a;
    while rest < b && piece_width(widths, rest, b, len) > max
        invariant
            measures(widths@, len as nat),
            a <= rest <= b <= len,
            old(out)@.len() <= out@.len(),
            left_over(widths@, a as int, b as int, max as int) == left_over(
                widths@,
                rest as int,
                b as int,
                max as int,
            ),
            pieces_of(out@) + broken(widths@, rest as int, b as int, max as int) == pieces_of(
                old(out)@,
            ) + broken(widths@, a as int, b as int, max as int),
            forall|i: int|
                old(out)@.len() <= i < out@.len() ==> (#[trigger] out@[i]).0 <= out@[i].1 <= len,
            forall|i: int| 0 <= i < old(out)@.len() ==> #[trigger] out@[i] == old(out)@[i],
        decreases b - rest,
    {
        let mut n: usize = 0;
        while n + 1 < b - rest && piece_width(widths, rest, rest + n + 1, len) <= max
            invariant
                measures(widths@, len as nat),
                rest < b <= len,
                rest + n < b,
                fitting(widths@, rest as int, b as int, max as int, 0) == fitting(
                    widths@,
                    rest as int,
                    b as int,
                    max as int,
                    n as int,
                ),
            decreases b - rest - n,
        {
            n += 1;
        }
        let at: usize = if n == 0 {
            rest + 1
        } else {
            rest + n
        };
        let ghost before = pieces_of(out@);
        out.push((rest, at));
        assert(pieces_of(out@) =~= before + seq![(rest as int, at as int)]);
        assert(pieces_of(out@) + broken(widths@, at as int, b as int, max as int) =~= before + (
        seq![(rest as int, at as int)] + broken(widths@, at as int, b as int, max as int)));
        rest = at;
    }
    assert(pieces_of(out@) =~= pieces_of(old(out)@) + broken(
        widths@,
        a as int,
        b as int,
        max as int,
    ));
    rest
}

/// The lines that `line` is broken into so that none is wider than `max`, each from where to
/// where. `widths` says how wide each piece of it is.
pub fn wrap_line(line: &str, widths: &Vec<Vec<i32>>, max: i32) -> (pieces: Vec<(usize, usize)>)
    requires
        measures(widths@, line@.len()),
    ensures
        pieces_of(pieces@) == wrapped_line(line@, widths@, max as int),
        forall|i: int|
            0 <= i < pieces@.len() ==> (#[trigger] pieces@[i]).0 <= pieces@[i].1 <= line@.len(),
{
    let chars = text::to_chars(line);
    let len: usize = chars.len();
    let mut out: Vec<(usize, usize)> = Vec::new();
    if piece_width(widths, 0, len, len) <= max {
        out.push((0, len));
        assert(pieces_of(out@) =~= wrapped_line(line@, widths@, max as int));
        return out;
    }
    let mut cs: usize = 0;
    let mut ce: usize = 0;
    let mut pos: usize = 0;
    let mut done = false;
    assert(pieces_of(out@) =~= Seq::<(int, int)>::empty());
    while !done
        invariant
            chars@ == line@,
            len == chars.len(),
            measures(widths@, line@.len()),
            done || pos <= len,
            cs <= ce <= len,
            done || ce <= pos,
            pieces_of(out@) + wrapped_from(
                line@,
                widths@,
                max as int,
                cs as int,
                ce as int,
                if done {
                    len + 1
                } else {
                    pos as int
                },
            ) == wrapped_from(line@, widths@, max as int, 0, 0, 0),
            forall|i: int|
                0 <= i < out@.len() ==> (#[trigger] out@[i]).0 <= out@[i].1 <= line@.len(),
        decreases
                (if done {
                    0
                } else {
                    len + 1 - pos
                }),
    {
        let mut end: usize = pos;
        while end < len && chars[end] != ' '
            invariant
                chars@ == line@,
                len == chars.len(),
                pos <= end <= len,
                text::first_occurrence(line@, ' ', pos as int) == text::first_occurrence(
                    line@,
                    ' ',
                    end as int,
                ),
            decreases len - end,
        {
            end += 1;
        }
        assert(end == word_end(line@, pos as int));
        let start: usize = if cs == ce {
            pos
        } else {
            cs
        };
        let ghost before = pieces_of(out@);
        if piece_width(widths, start, end, len) <= max {
            cs = start;
            ce = end;
        } else {
            if cs != ce {
                out.push((cs, ce));
                assert(pieces_of(out@) =~= before + seq![(cs as int, ce as int)]);
            }
            let ghost mid = pieces_of(out@);
            let rest: usize = break_word(widths, pos, end, len, max, &mut out);
            assert(pieces_of(out@) == mid + broken(widths@, pos as int, end as int, max as int));
            let ghost tail = wrapped_from(
                line@,
                widths@,
                max as int,
                rest as int,
                end as int,
                end + 1,
            );
            let ghost first = if cs == ce {
                Seq::<(int, int)>::empty()
            } else {
                seq![(cs as int, ce as int)]
            };
            assert(mid =~= before + first);
            assert(pieces_of(out@) + tail =~= before + (first + broken(
                widths@,
                pos as int,
                end as int,
                max as int,
            ) + tail));
            cs = rest;
            ce = end;
        }
        if end == len {
            done = true;
        } else {
            pos = end + 1;
        }
    }
    let ghost before = pieces_of(out@);
    out.push((cs, ce));
    assert(pieces_of(out@) =~= before + seq![(cs as int, ce as int)]);
    out
}

/// The lines of a message, each broken so that none is wider than `max`.
pub open spec fn wrapped_lines(lines: Seq<Txt>, widths: Seq<Vec<Vec<i32>>>, max: int) -> Seq<Txt>
    decreases lines.len(),
{
    if lines.len() == 0 {
        Seq::empty()
    } else {
        wrapped_lines(lines.drop_last(), widths.drop_last(), max) + texts_of(
            lines.last(),
            wrapped_line(lines.last(), widths.last()@, max),
        )
    }
}

/// The texts of the pieces of a line.
pub open spec fn texts_of(line: Txt, pieces: Seq<(int, int)>) -> Seq<Txt> {
    pieces.map_values(|p: (int, int)| line.subrange(p.0, p.1))
}

/// The lines of a message, each broken so that none is wider than `max`. `widths` says for each
/// line how wide its pieces are.
pub fn measure_message(message: &str, widths: &Vec<Vec<Vec<i32>>>, max: i32) -> (lines: Vec<String>)
    requires
        widths@.len() == text::all_parts(message@, '\n').len(),
        forall|i: int|
            0 <= i < widths@.len() ==> measures(
                (#[trigger] widths@[i])@,
                text::all_parts(message@, '\n')[i].len(),
            ),
    ensures
        lines.deep_view() == wrapped_lines(
            text::all_parts(message@, '\n'),
            widths@,
            max as int,
        ),
{
    let parts = text::split_all(message, '\n');
    let ghost all = parts.deep_view();
    let mut lines: Vec<String> = Vec::new();
    let mut i: usize = 0;
    assert(lines.deep_view() =~= wrapped_lines(all.take(0), widths@.take(0), max as int));
    while i < parts.len()
        invariant
            i <= parts.len(),
            all == parts.deep_view(),
            widths@.len() == all.len(),
            forall|j: int|
                0 <= j < widths@.len() ==> measures((#[trigger] widths@[j])@, all[j].len()),
            lines.deep_view() == wrapped_lines(
                all.take(i as int),
                widths@.take(i as int),
                max as int,
            ),
        decreases parts.len() - i,
    {
        assert(all[i as int] == parts@[i as int]@);
        let line = parts[i].as_str();
        let pieces = wrap_line(line, &widths[i], max);
        let chars = text::to_chars(line);
        let ghost done = lines.deep_view();
        let ghost texts = texts_of(line@, pieces_of(pieces@));
        let mut k: usize = 0;
        assert(lines.deep_view() =~= done + texts.take(0));
        while k < pieces.len()
            invariant
                k <= pieces.len(),
                chars@ == line@,
                texts == texts_of(line@, pieces_of(pieces@)),
                lines.deep_view() == done + texts.take(k as int),
                forall|j: int|
                    0 <= j < pieces@.len() ==> (#[trigger] pieces@[j]).0 <= pieces@[j].1
                        <= line@.len(),
            decreases pieces.len() - k,
        {
            let (from, to) = pieces[k];
            assert(pieces@[k as int].0 <= pieces@[k as int].1 <= line@.len());
            let piece = text::from_range(&chars, from, to);
            assert(texts[k as int] =~= piece@);
            lines.push(piece);
            assert(lines.deep_view() =~= (done + texts.take(k as int)).push(piece@));
            assert(texts.take(k + 1) =~= texts.take(k as int).push(piece@));
            assert(lines.deep_view() =~= done + texts.take(k + 1));
            k += 1;
        }
        assert(texts.take(texts.len() as int) =~= texts);
        assert(all.take(i + 1).drop_last() =~= all.take(i as int));
        assert(widths@.take(i + 1).drop_last() =~= widths@.take(i as int));
        i += 1;
    }
    assert(all.take(all.len() as int) =~= all);
    assert(widths@.take(widths@.len() as int) =~= widths@);
    lines
}

/// The number of a style says which style it is.
pub proof fn law_numbers_name_styles(a: int, b: int)
    requires
        style_of(a) is Some,
        style_of(a) == style_of(b),
    ensures
        a == b,
{
}

/// Each style has a button that Escape pushes, and Enter pushes the first. Where there is but
/// one, both push it.
pub proof fn law_escape_has_a_button(style: MessageStyle)
    ensures
        0 <= escape_button(style) < buttons_of(style).len(),
        button_id(style, escape_button(style)) == ID_CANCEL,
        buttons_of(style).len() > 1 ==> button_id(style, 0) == ID_OK,
{
}

/// No two buttons of a message are known by the same number.
pub proof fn law_buttons_are_told_apart(style: MessageStyle, i: int, j: int)
    requires
        0 <= i < j < buttons_of(style).len(),
    ensures
        button_id(style, i) != button_id(style, j),
{
}

/// No button of a message reaches out of it, and none lies over another.
pub proof fn law_buttons_have_room(style: MessageStyle, label_w: int, label_h: int, i: int)
    requires
        0 <= label_w <= i32::MAX - 1000,
        0 <= label_h <= i32::MAX - 1000,
        0 <= i < buttons_of(style).len(),
    ensures
        ({
            let b = message_button(style, label_w, label_h, i);
            &&& 16 <= b.x
            &&& b.x + b.w <= message_w(style, label_w) - 15
            &&& i + 1 < buttons_of(style).len() ==> b.x + b.w < message_button(
                style,
                label_w,
                label_h,
                i + 1,
            ).x
        }),
{
}

/// Whether a piece is no wider than it may be, or only one character long.
pub open spec fn fits(widths: Seq<Vec<i32>>, piece: (int, int), max: int) -> bool {
    piece_w(widths, piece.0, piece.1) <= max || piece.1 == piece.0 + 1
}

proof fn lemma_fitting(widths: Seq<Vec<i32>>, a: int, b: int, max: int, n: int)
    requires
        0 <= n,
        a + n < b,
        n == 0 || piece_w(widths, a, a + n) <= max,
    ensures
        ({
            let m = fitting(widths, a, b, max, n);
            n <= m && a + m < b && (m == 0 || piece_w(widths, a, a + m) <= max)
        }),
    decreases b - a - n,
{
    if a + n + 1 < b && piece_w(widths, a, a + n + 1) <= max {
        lemma_fitting(widths, a, b, max, n + 1);
    }
}

proof fn lemma_broken_fits(widths: Seq<Vec<i32>>, a: int, b: int, max: int, len: nat)
    requires
        measures(widths, len),
        0 <= a <= b <= len,
        0 <= max,
    ensures
        forall|i: int|
            0 <= i < broken(widths, a, b, max).len() ==> fits(
                widths,
                #[trigger] broken(widths, a, b, max)[i],
                max,
            ),
        a <= left_over(widths, a, b, max) <= b,
        piece_w(widths, left_over(widths, a, b, max), b) <= max,
    decreases b - a,
{
    if a < b && piece_w(widths, a, b) > max {
        lemma_fitting(widths, a, b, max, 0);
        let at = break_at(widths, a, b, max);
        assert(a < at <= b);
        lemma_broken_fits(widths, at, b, max, len);
        let rest = broken(widths, at, b, max);
        assert forall|i: int| 0 <= i < broken(widths, a, b, max).len() implies fits(
            widths,
            #[trigger] broken(widths, a, b, max)[i],
            max,
        ) by {
            if i > 0 {
                assert(broken(widths, a, b, max)[i] == rest[i - 1]);
            }
        }
    } else if a == b {
        assert(widths[a]@[0] == 0);
    }
}

proof fn lemma_word_end(line: Txt, from: int)
    requires
        0 <= from <= line.len(),
    ensures
        from <= word_end(line, from) <= line.len(),
        word_end(line, from) < line.len() ==> line[word_end(line, from)] == ' ',
{
    text::lemma_first_occurrence(line, ' ', from);
}

proof fn lemma_wrapped_fits(
    line: Txt,
    widths: Seq<Vec<i32>>,
    max: int,
    cs: int,
    ce: int,
    pos: int,
)
    requires
        measures(widths, line.len()),
        0 <= max,
        0 <= cs <= ce <= line.len(),
        piece_w(widths, cs, ce) <= max,
        0 <= pos,
        cs == ce || ce <= pos,
    ensures
        forall|i: int|
            0 <= i < wrapped_from(line, widths, max, cs, ce, pos).len() ==> fits(
                widths,
                #[trigger] wrapped_from(line, widths, max, cs, ce, pos)[i],
                max,
            ),
    decreases line.len() + 1 - pos,
{
    if pos <= line.len() {
        lemma_word_end(line, pos);
        let end = word_end(line, pos);
        let start = if cs == ce {
            pos
        } else {
            cs
        };
        if piece_w(widths, start, end) <= max {
            lemma_wrapped_fits(line, widths, max, start, end, end + 1);
            assert(wrapped_from(line, widths, max, cs, ce, pos) == wrapped_from(
                line,
                widths,
                max,
                start,
                end,
                end + 1,
            ));
        } else {
            lemma_broken_fits(widths, pos, end, max, line.len());
            let left = left_over(widths, pos, end, max);
            lemma_wrapped_fits(line, widths, max, left, end, end + 1);
            let all = wrapped_from(line, widths, max, cs, ce, pos);
            let first = if cs == ce {
                Seq::<(int, int)>::empty()
            } else {
                seq![(cs, ce)]
            };
            let pieces = broken(widths, pos, end, max);
            let tail = wrapped_from(line, widths, max, left, end, end + 1);
            assert(all =~= first + pieces + tail);
            assert forall|i: int| 0 <= i < all.len() implies fits(
                widths,
                #[trigger] all[i],
                max,
            ) by {
                if i < first.len() {
                    assert(all[i] == first[i]);
                } else if i < first.len() + pieces.len() {
                    assert(all[i] == pieces[i - first.len()]);
                } else {
                    assert(all[i] == tail[i - first.len() - pieces.len()]);
                }
            }
        }
    } else {
        assert(wrapped_from(line, widths, max, cs, ce, pos) == seq![(cs, ce)]);
    }
}

/// No line of a message is wider than it may be, but for one that holds a single character that
/// is too wide by itself.
pub proof fn law_wrapped_lines_fit(line: Txt, widths: Seq<Vec<i32>>, max: int)
    requires
        measures(widths, line.len()),
        0 <= max,
    ensures
        forall|i: int|
            0 <= i < wrapped_line(line, widths, max).len() ==> fits(
                widths,
                #[trigger] wrapped_line(line, widths, max)[i],
                max,
            ),
{
    assert(widths[0]@[0] == 0);
    if piece_w(widths, 0, line.len() as int) > max {
        lemma_wrapped_fits(line, widths, max, 0, 0, 0);
    }
}

/// Whether there are only spaces from `a` to `b`.
pub open spec fn all_spaces(line: Txt, a: int, b: int) -> bool {
    forall|j: int| a <= j < b ==> #[trigger] line[j] == ' '
}

/// Whether the pieces hold the line from `from` on, in order, but for spaces.
pub open spec fn holds_all(line: Txt, pieces: Seq<(int, int)>, from: int) -> bool
    decreases pieces.len(),
{
    if pieces.len() == 0 {
        all_spaces(line, from, line.len() as int)
    } else {
        let p = pieces[0];
        &&& from <= p.0 <= p.1 <= line.len()
        &&& all_spaces(line, from, p.0)
        &&& holds_all(line, pieces.skip(1), p.1)
    }
}

proof fn lemma_broken_holds(
    line: Txt,
    widths: Seq<Vec<i32>>,
    a: int,
    b: int,
    max: int,
    rest: Seq<(int, int)>,
    from: int,
)
    requires
        measures(widths, line.len()),
        0 <= max,
        0 <= from <= a <= b <= line.len(),
        all_spaces(line, from, a),
        broken(widths, a, b, max).len() == 0 ==> holds_all(line, rest, from),
        broken(widths, a, b, max).len() > 0 ==> holds_all(
            line,
            rest,
            left_over(widths, a, b, max),
        ),
    ensures
        holds_all(line, broken(widths, a, b, max) + rest, from),
    decreases b - a,
{
    if a < b && piece_w(widths, a, b) > max {
        lemma_fitting(widths, a, b, max, 0);
        let at = break_at(widths, a, b, max);
        let more = broken(widths, at, b, max);
        if more.len() == 0 {
            if at < b && piece_w(widths, at, b) > max {
                lemma_fitting(widths, at, b, max, 0);
            }
            assert(left_over(widths, at, b, max) == at);
        }
        lemma_broken_holds(line, widths, at, b, max, rest, at);
        assert((broken(widths, a, b, max) + rest).skip(1) =~= more + rest);
    } else {
        assert(broken(widths, a, b, max) + rest =~= rest);
    }
}

proof fn lemma_wrapped_holds(
    line: Txt,
    widths: Seq<Vec<i32>>,
    max: int,
    cs: int,
    ce: int,
    pos: int,
    from: int,
)
    requires
        measures(widths, line.len()),
        0 <= max,
        0 <= cs <= ce <= line.len(),
        0 <= from,
        0 <= pos <= line.len() + 1,
        pos == line.len() + 1 ==> ce == line.len() && from <= cs && all_spaces(line, from, cs),
        pos <= line.len() && cs < ce ==> from <= cs && ce <= pos && all_spaces(line, from, cs)
            && all_spaces(line, ce, pos),
        pos <= line.len() && cs == ce ==> from <= pos && all_spaces(line, from, pos),
    ensures
        holds_all(line, wrapped_from(line, widths, max, cs, ce, pos), from),
    decreases line.len() + 1 - pos,
{
    if pos == line.len() + 1 {
        let only = seq![(cs, ce)];
        assert(only.skip(1) =~= Seq::<(int, int)>::empty());
        assert(holds_all(line, only.skip(1), ce));
    } else {
        lemma_word_end(line, pos);
        let end = word_end(line, pos);
        let start = if cs == ce {
            pos
        } else {
            cs
        };
        if piece_w(widths, start, end) <= max {
            lemma_wrapped_holds(line, widths, max, start, end, end + 1, from);
        } else {
            lemma_broken_fits(widths, pos, end, max, line.len());
            let left = left_over(widths, pos, end, max);
            let pieces = broken(widths, pos, end, max);
            let tail = wrapped_from(line, widths, max, left, end, end + 1);
            let mid = if cs == ce {
                from
            } else {
                ce
            };
            if pieces.len() == 0 {
                assert(left == pos) by {
                    if pos < end && piece_w(widths, pos, end) > max {
                        lemma_fitting(widths, pos, end, max, 0);
                    }
                }
                lemma_wrapped_holds(line, widths, max, left, end, end + 1, mid);
            } else {
                lemma_wrapped_holds(line, widths, max, left, end, end + 1, left);
            }
            lemma_broken_holds(line, widths, pos, end, max, tail, mid);
            let all = wrapped_from(line, widths, max, cs, ce, pos);
            if cs == ce {
                assert(all =~= pieces + tail);
            } else {
                assert(all.skip(1) =~= pieces + tail);
                assert(all[0] == (cs, ce));
            }
        }
    }
}

/// Breaking a line loses nothing but spaces: the pieces hold the line, in order, and only
/// spaces lie before, between and behind them.
pub proof fn law_wrapping_loses_only_spaces(line: Txt, widths: Seq<Vec<i32>>, max: int)
    requires
        measures(widths, line.len()),
        0 <= max,
    ensures
        holds_all(line, wrapped_line(line, widths, max), 0),
{
    if piece_w(widths, 0, line.len() as int) <= max {
        let only = seq![(0int, line.len() as int)];
        assert(only.skip(1) =~= Seq::<(int, int)>::empty());
        assert(holds_all(line, only.skip(1), line.len() as int));
    } else {
        lemma_wrapped_holds(line, widths, max, 0, 0, 0, 0);
    }
}

/// The buttons of a message, and what they are known by.
pub open spec fn told_buttons(style: MessageStyle) -> Seq<(Txt, u16)> {
    Seq::new(buttons_of(style).len(), |i: int| (buttons_of(style)[i].0@, button_id(style, i)))
}

/// What is told of a message.
pub fn message_registration(title: &str, message: &str, style: MessageStyle) -> (r: Registration)
    ensures
        r@ == dialog::told_with(
            "message"@,
            title@,
            message@,
            false,
            told_buttons(style),
        ),
{
    let specs = style.buttons();
    let mut buttons: Vec<(String, u16)> = Vec::new();
    let mut i: usize = 0;
    assert(buttons.deep_view() =~= told_buttons(style).take(0));
    while i < specs.len()
        invariant
            i <= specs.len(),
            specs@ == buttons_of(style),
            specs@.len() <= 3,
            buttons.deep_view() == told_buttons(style).take(i as int),
        decreases specs.len() - i,
    {
        let ghost before = buttons.deep_view();
        let b = dialog::button(specs[i].0, id_of_button(style, i));
        buttons.push(b);
        assert(buttons.deep_view() =~= before.push((b.0@, b.1)));
        assert(told_buttons(style).take(i + 1) =~= told_buttons(style).take(i as int).push(
            told_buttons(style)[i as int],
        ));
        i += 1;
    }
    assert(told_buttons(style).take(specs@.len() as int) =~= told_buttons(style));
    Registration::Plain {
        kind: text::copy("message"),
        title: text::copy(title),
        prompt: text::copy(message),
        has_input: false,
        buttons,
    }
}

/// Whether it is checked that the answer holds for all, after a key: while the Shift key is down
/// it is. A key is never kept from the buttons.
pub fn all_after_key(style: MessageStyle, checked: bool, message: KeyMessage, code: u16) -> (all:
    bool)
    ensures
        all == (if asks_for_all(style) && code == 0x10 && message != KeyMessage::Char {
            message == KeyMessage::Down
        } else {
            checked
        }),
{
    if style.has_all_checkbox() && code == 0x10 {
        match message {
            KeyMessage::Down => true,
            KeyMessage::Up => false,
            KeyMessage::Char => checked,
        }
    } else {
        checked
    }
}

} // verus!

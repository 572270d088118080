//! What a text or binary viewer shows.
//!
//! Bytes are decoded with the encoding at hand and laid out as wrapped text lines, or as
//! lines of a hex dump. Decoding is lossy: bytes that make no sense are shown as U+FFFD, and
//! nothing is refused.

use crate::text;
use unicode_width::UnicodeWidthChar;
use vstd::prelude::*;

verus! {

/// A text in specifications.
pub type Txt = Seq<char>;

/// The encodings that the viewer knows. None is guessed: the user switches through them.
#[derive(Clone, Copy, Debug, PartialEq, Eq, Structural)]
pub enum Encoding {
    Utf8,
    ShiftJis,
    EucJp,
    Utf16Le,
    Utf16Be,
    Iso2022Jp,
}

/// What bytes read as in an encoding.
pub uninterp spec fn decoded(encoding: Encoding, bytes: Seq<u8>) -> Seq<char>;

/// `encoding_rs::Encoding::decode_with_bom_removal`, for the encoding of that name: the bytes are
/// read in this encoding whatever they start with, a byte order mark of the encoding itself is
/// left out, and what is malformed becomes U+FFFD. The text depends on the encoding and the bytes
/// alone.
#[verifier::external_body]
fn decode_bytes(encoding: Encoding, bytes: &[u8]) -> (s: String)
    ensures
        s@ == decoded(encoding, bytes@),
{
    let rs: &'static encoding_rs::Encoding = match encoding {
        Encoding::Utf8 => encoding_rs::UTF_8,
        Encoding::ShiftJis => encoding_rs::SHIFT_JIS,
        Encoding::EucJp => encoding_rs::EUC_JP,
        Encoding::Utf16Le => encoding_rs::UTF_16LE,
        Encoding::Utf16Be => encoding_rs::UTF_16BE,
        Encoding::Iso2022Jp => encoding_rs::ISO_2022_JP,
    };
    rs.decode_with_bom_removal(bytes).0.into_owned()
}

/// How many columns a character takes.
pub uninterp spec fn char_columns(c: char) -> Option<usize>;

/// `UnicodeWidthChar::width` of the crate unicode-width: the columns of a character, by the
/// tables of Unicode; none for control characters, one for printable ASCII and for U+FFFD, and
/// never more than a byte can count.
#[verifier::external_body]
fn columns_of(c: char) -> (columns: Option<usize>)
    ensures
        columns == char_columns(c),
        columns is None <==> is_control_char(c),
        ' ' <= c && c <= '~' ==> columns == Some(1usize),
        c == '\u{FFFD}' ==> columns == Some(1usize),
        columns matches Some(n) ==> n <= 255,
{
    UnicodeWidthChar::width(c)
}

/// Whether a character is a control character: U+0000 to U+001F, and U+007F to U+009F.
pub open spec fn is_control_char(c: char) -> bool {
    (c as u32) < 0x20 || (0x7F <= (c as u32) && (c as u32) < 0xA0)
}

/// Whether a character is a control character.
fn is_control(c: char) -> (yes: bool)
    ensures
        yes == is_control_char(c),
{
    let v: u32 = c as u32;
    v < 0x20 || (0x7F <= v && v < 0xA0)
}

impl Encoding {
    /// The encodings in the order in which they are switched through.
    pub const CYCLE: [Encoding; 6] = [
        Encoding::Utf8,
        Encoding::ShiftJis,
        Encoding::EucJp,
        Encoding::Utf16Le,
        Encoding::Utf16Be,
        Encoding::Iso2022Jp,
    ];

    /// The place of an encoding in the order.
    pub open spec fn place(self) -> int {
        match self {
            Encoding::Utf8 => 0,
            Encoding::ShiftJis => 1,
            Encoding::EucJp => 2,
            Encoding::Utf16Le => 3,
            Encoding::Utf16Be => 4,
            Encoding::Iso2022Jp => 5,
        }
    }

    /// The name that is shown.
    pub open spec fn shown(self) -> &'static str {
        match self {
            Encoding::Utf8 => "UTF-8",
            Encoding::ShiftJis => "Shift_JIS",
            Encoding::EucJp => "EUC-JP",
            Encoding::Utf16Le => "UTF-16LE",
            Encoding::Utf16Be => "UTF-16BE",
            Encoding::Iso2022Jp => "ISO-2022-JP",
        }
    }

    /// The name that is shown.
    pub fn label(self) -> (label: &'static str)
        ensures
            label == self.shown(),
    {
        match self {
            Encoding::Utf8 => "UTF-8",
            Encoding::ShiftJis => "Shift_JIS",
            Encoding::EucJp => "EUC-JP",
            Encoding::Utf16Le => "UTF-16LE",
            Encoding::Utf16Be => "UTF-16BE",
            Encoding::Iso2022Jp => "ISO-2022-JP",
        }
    }

    /// The next encoding in the order, or the one before; the ends meet.
    pub fn cycle(self, forward: bool) -> (next: Encoding)
        ensures
            next.place() == (if forward {
                (self.place() + 1) % 6
            } else {
                (self.place() + 5) % 6
            }),
    {
        let at: usize = match self {
            Encoding::Utf8 => 0,
            Encoding::ShiftJis => 1,
            Encoding::EucJp => 2,
            Encoding::Utf16Le => 3,
            Encoding::Utf16Be => 4,
            Encoding::Iso2022Jp => 5,
        };
        let to: usize = if forward {
            (at + 1) % 6
        } else {
            (at + 5) % 6
        };
        Encoding::CYCLE[to]
    }

    /// The text of `bytes` in this encoding.
    pub fn decode(self, bytes: &[u8]) -> (s: String)
        ensures
            s@ == decoded(self, bytes@),
    {
        decode_bytes(self, bytes)
    }
}

/// Encodings are told apart by their places.
pub proof fn law_encodings_have_their_places(a: Encoding, b: Encoding)
    ensures
        0 <= a.place() < 6,
        a.place() == b.place() ==> a == b,
        Encoding::CYCLE[a.place()] == a,
{
}

/// How many bytes are looked at to tell text from binary.
pub const SNIFF: usize = 8192;

/// Whether a character cannot be displayed: a control character other than tab and line
/// break, DEL, or U+FFFD.
pub open spec fn undisplayable(c: char) -> bool {
    if c == '\t' || c == '\n' || c == '\r' {
        false
    } else {
        c == '\u{FFFD}' || c == '\u{7F}' || (c as u32) < 0x20
    }
}

/// How many characters of a text cannot be displayed.
pub open spec fn undisplayable_count(s: Txt) -> nat
    decreases s.len(),
{
    if s.len() == 0 {
        0
    } else {
        undisplayable_count(s.drop_last()) + (if undisplayable(s.last()) {
            1nat
        } else {
            0
        })
    }
}

/// Whether more than three in ten characters of a text cannot be displayed.
pub open spec fn too_garbled(s: Txt) -> bool {
    10 * undisplayable_count(s) > 3 * s.len()
}

/// Whether more than three in ten characters of `s` cannot be displayed.
pub fn mostly_undisplayable(s: &str) -> (garbled: bool)
    ensures
        garbled == too_garbled(s@),
{
    let chars = text::to_chars(s);
    let mut bad: usize = 0;
    let mut i: usize = 0;
    while i < chars.len()
        invariant
            i <= chars.len(),
            bad <= i,
            chars@ == s@,
            bad == undisplayable_count(s@.take(i as int)),
        decreases chars.len() - i,
    {
        let c = chars[i];
        let shown = c == '\t' || c == '\n' || c == '\r';
        if !shown && (c == '\u{FFFD}' || c == '\u{7F}' || (c as u32) < 0x20) {
            bad += 1;
        }
        i += 1;
        assert(s@.take(i as int).drop_last() =~= s@.take(i - 1));
    }
    assert(s@.take(s@.len() as int) =~= s@);
    10 * (bad as u128) > 3 * (chars.len() as u128)
}

/// The bytes that are looked at to tell text from binary.
pub open spec fn sniffed(bytes: Seq<u8>) -> Seq<u8> {
    bytes.take(if bytes.len() < SNIFF {
        bytes.len() as int
    } else {
        SNIFF as int
    })
}

/// Whether bytes look like no text: they hold a NUL, or read as garbled in each of the
/// byte-wise encodings.
pub open spec fn binary_like(bytes: Seq<u8>) -> bool {
    let chunk = sniffed(bytes);
    chunk.len() > 0 && (chunk.contains(0u8) || (too_garbled(decoded(Encoding::Utf8, chunk))
        && too_garbled(decoded(Encoding::ShiftJis, chunk)) && too_garbled(
        decoded(Encoding::EucJp, chunk),
    ) && too_garbled(decoded(Encoding::Iso2022Jp, chunk))))
}

/// Whether the start of `bytes` looks like no text.
pub fn looks_binary(bytes: &[u8]) -> (binary: bool)
    ensures
        binary == binary_like(bytes@),
{
    let len: usize = if bytes.len() < SNIFF {
        bytes.len()
    } else {
        SNIFF
    };
    let mut chunk: Vec<u8> = Vec::new();
    let mut i: usize = 0;
    while i < len
        invariant
            i <= len <= bytes.len(),
            chunk@ == bytes@.take(i as int),
            !chunk@.contains(0u8),
            len == sniffed(bytes@).len(),
        decreases len - i,
    {
        let b = bytes[i];
        if b == 0 {
            proof {
                assert(sniffed(bytes@)[i as int] == 0u8);
            }
            return true;
        }
        chunk.push(b);
        i += 1;
        assert(chunk@ =~= bytes@.take(i as int));
    }
    assert(chunk@ =~= sniffed(bytes@));
    if len == 0 {
        return false;
    }
    let seen = chunk.as_slice();
    mostly_undisplayable(Encoding::Utf8.decode(seen).as_str()) && mostly_undisplayable(
        Encoding::ShiftJis.decode(seen).as_str(),
    ) && mostly_undisplayable(Encoding::EucJp.decode(seen).as_str()) && mostly_undisplayable(
        Encoding::Iso2022Jp.decode(seen).as_str(),
    )
}

/// How the bytes are shown.
#[derive(Clone, Copy, Debug, PartialEq, Eq, Structural)]
pub enum ViewMode {
    Text,
    Binary,
}

/// A line on the screen: its line number or offset, which is empty where a wrapped line goes
/// on, and its text.
#[derive(Clone, Debug, PartialEq, Eq)]
pub struct DisplayLine<S = String> {
    pub gutter: S,
    pub body: S,
}

impl View for DisplayLine<String> {
    type V = DisplayLine<Txt>;

    open spec fn view(&self) -> DisplayLine<Txt> {
        DisplayLine { gutter: self.gutter@, body: self.body@ }
    }
}

/// The lines, as a specification reads them.
pub open spec fn lines_of(lines: Seq<DisplayLine>) -> Seq<DisplayLine<Txt>> {
    lines.map_values(|l: DisplayLine| l@)
}

/// Where the line break at `at` ends.
pub open spec fn break_end(s: Txt, at: int) -> int {
    if s[at] == '\r' && at + 1 < s.len() && s[at + 1] == '\n' {
        at + 2
    } else {
        at + 1
    }
}

/// Whether a character breaks a line.
pub open spec fn breaks_line(c: char) -> bool {
    c == '\n' || c == '\r'
}

/// The end of the line that starts at `from`: the next line break, or the end of the text.
pub open spec fn line_end(s: Txt, from: int) -> int
    decreases s.len() - from,
{
    if 0 <= from < s.len() && !breaks_line(s[from]) {
        line_end(s, from + 1)
    } else {
        from
    }
}

proof fn lemma_line_end(s: Txt, from: int)
    requires
        0 <= from <= s.len(),
    ensures
        from <= line_end(s, from) <= s.len(),
        line_end(s, from) < s.len() ==> breaks_line(s[line_end(s, from)]),
        forall|i: int| from <= i < line_end(s, from) ==> !breaks_line(s[i]),
    decreases s.len() - from,
{
    if from < s.len() && !breaks_line(s[from]) {
        lemma_line_end(s, from + 1);
    }
}

/// The lines of a text from position `from` on. A break at the very end opens no line.
pub open spec fn lines_from(s: Txt, from: int) -> Seq<Txt>
    decreases s.len() - from,
{
    if from < 0 || from >= s.len() {
        Seq::empty()
    } else {
        let end = line_end(s, from);
        if end < from || end >= s.len() {
            seq![s.subrange(from, s.len() as int)]
        } else {
            seq![s.subrange(from, end)] + lines_from(s, break_end(s, end))
        }
    }
}

/// The lines of a text: what stands between `\n`, `\r\n` and `\r`. An empty text is one empty
/// line.
pub open spec fn logical_lines(s: Txt) -> Seq<Txt> {
    if s.len() == 0 {
        seq![Seq::empty()]
    } else {
        lines_from(s, 0)
    }
}

/// The lines of `s`.
pub fn split_lines(s: &str) -> (lines: Vec<String>)
    ensures
        lines.deep_view() == logical_lines(s@),
{
    let chars = text::to_chars(s);
    let mut lines: Vec<String> = Vec::new();
    if chars.len() == 0 {
        lines.push(String::new());
        assert(lines.deep_view() =~= seq![Seq::<char>::empty()]);
        return lines;
    }
    let mut start: usize = 0;
    assert(lines.deep_view() =~= Seq::<Txt>::empty());
    assert(lines.deep_view() + lines_from(s@, 0) =~= lines_from(s@, 0));
    while start < chars.len()
        invariant
            start <= chars.len(),
            chars@ == s@,
            lines.deep_view() + lines_from(s@, start as int) == lines_from(s@, 0),
        decreases chars.len() - start,
    {
        let mut end: usize = start;
        while end < chars.len() && chars[end] != '\n' && chars[end] != '\r'
            invariant
                start <= end <= chars.len(),
                chars@ == s@,
                line_end(s@, start as int) == line_end(s@, end as int),
            decreases chars.len() - end,
        {
            end += 1;
        }
        let ghost before = lines.deep_view();
        let line = text::from_range(&chars, start, end);
        lines.push(line);
        assert(lines.deep_view() =~= before.push(line@));
        let ghost rest = lines_from(s@, start as int);
        if end == chars.len() {
            start = end;
        } else if chars[end] == '\r' && end + 1 < chars.len() && chars[end + 1] == '\n' {
            start = end + 2;
        } else {
            start = end + 1;
        }
        assert(lines_from(s@, start as int) =~= rest.skip(1));
        assert(rest[0] == line@);
        assert(lines.deep_view() + lines_from(s@, start as int) =~= before + rest);
    }
    assert(lines.deep_view() + lines_from(s@, start as int) =~= lines.deep_view());
    lines
}

/// No line of a text holds a line break.
pub proof fn law_lines_hold_no_breaks(s: Txt, i: int, j: int)
    requires
        0 <= i < logical_lines(s).len(),
        0 <= j < logical_lines(s)[i].len(),
    ensures
        !breaks_line(logical_lines(s)[i][j]),
{
    if s.len() > 0 {
        lemma_no_breaks_from(s, 0, i, j);
    }
}

proof fn lemma_no_breaks_from(s: Txt, from: int, i: int, j: int)
    requires
        0 <= from,
        0 <= i < lines_from(s, from).len(),
        0 <= j < lines_from(s, from)[i].len(),
    ensures
        !breaks_line(lines_from(s, from)[i][j]),
    decreases s.len() - from,
{
    if from < s.len() {
        lemma_line_end(s, from);
        let end = line_end(s, from);
        if end < s.len() && i > 0 {
            assert(lines_from(s, from)[i] == lines_from(s, break_end(s, end))[i - 1]);
            lemma_no_breaks_from(s, break_end(s, end), i - 1, j);
        }
    }
}

/// A line that is being wrapped: the pieces that are complete, and the one at hand with the
/// column it has reached.
pub struct Wrapping {
    pub done: Seq<Txt>,
    pub piece: Txt,
    pub column: nat,
}

/// One more character of `width` columns. It starts a new piece where the one at hand has no
/// room for it, unless that is empty.
pub open spec fn placed(w: Wrapping, wrap: nat, c: char, width: nat) -> Wrapping {
    if w.column + width > wrap && w.piece.len() > 0 {
        Wrapping { done: w.done.push(w.piece), piece: seq![c], column: width }
    } else {
        Wrapping { piece: w.piece.push(c), column: w.column + width, ..w }
    }
}

/// `n` more blanks.
pub open spec fn padded(w: Wrapping, wrap: nat, n: nat) -> Wrapping
    decreases n,
{
    if n == 0 {
        w
    } else {
        placed(padded(w, wrap, (n - 1) as nat), wrap, ' ', 1)
    }
}

/// What is shown of a character other than tab, and how wide: a control character shows as
/// U+FFFD, and what takes no column is not shown.
pub open spec fn shown_as(c: char) -> Option<(char, nat)> {
    match char_columns(c) {
        Some(width) => if width == 0 {
            if is_control_char(c) {
                Some(('\u{FFFD}', 1nat))
            } else {
                None
            }
        } else {
            Some((c, width as nat))
        },
        None => if is_control_char(c) {
            Some(('\u{FFFD}', 1nat))
        } else {
            None
        },
    }
}

/// One more character of the line. A tab goes to the next multiple of `tab`.
pub open spec fn fed(w: Wrapping, wrap: nat, tab: nat, c: char) -> Wrapping {
    if c == '\t' {
        padded(w, wrap, (tab - w.column % tab) as nat)
    } else {
        match shown_as(c) {
            Some((shown, width)) => placed(w, wrap, shown, width),
            None => w,
        }
    }
}

/// A line after all of its characters.
pub open spec fn fed_all(line: Txt, wrap: nat, tab: nat) -> Wrapping
    decreases line.len(),
{
    if line.len() == 0 {
        Wrapping { done: Seq::empty(), piece: Seq::empty(), column: 0 }
    } else {
        fed(fed_all(line.drop_last(), wrap, tab), wrap, tab, line.last())
    }
}

/// At least one.
pub open spec fn at_least_one(n: nat) -> nat {
    if n == 0 {
        1
    } else {
        n
    }
}

/// The pieces of a line, wrapped at `wrap` columns.
pub open spec fn wrapped(line: Txt, wrap: nat, tab: nat) -> Seq<Txt> {
    let w = fed_all(line, at_least_one(wrap), tab);
    w.done.push(w.piece)
}

/// A line that is being wrapped.
struct Wrapper {
    done: Vec<String>,
    piece: String,
    used: bool,
    column: usize,
}

impl View for Wrapper {
    type V = Wrapping;

    closed spec fn view(&self) -> Wrapping {
        Wrapping {
            done: self.done.deep_view(),
            piece: self.piece@,
            column: self.column as nat,
        }
    }
}

impl Wrapper {
    spec fn wf(&self) -> bool {
        &&& self.used == (self.piece@.len() > 0)
        &&& !self.used ==> self.column == 0
    }

    /// One more character.
    fn put(&mut self, wrap: usize, c: char, width: usize)
        requires
            old(self).wf(),
        ensures
            final(self).wf(),
            final(self)@ == placed(old(self)@, wrap as nat, c, width as nat),
    {
        if (width > wrap || self.column > wrap - width) && self.used {
            let mut piece = String::new();
            std::mem::swap(&mut piece, &mut self.piece);
            self.done.push(piece);
            assert(self.done.deep_view() =~= old(self).done.deep_view().push(old(self).piece@));
            self.column = 0;
        }
        self.piece.push(c);
        self.used = true;
        assert(self.column == 0 || self.column + width <= wrap);
        self.column = self.column + width;
        assert(Seq::<char>::empty().push(c) =~= seq![c]);
    }
}

/// The pieces of `line`, wrapped at `wrap_cols` columns, with tabs going to the next multiple
/// of `tab_width`.
pub fn wrap_line(line: &str, wrap_cols: usize, tab_width: usize) -> (pieces: Vec<String>)
    requires
        tab_width > 0,
    ensures
        pieces.deep_view() == wrapped(line@, wrap_cols as nat, tab_width as nat),
        forall|i: int|
            0 <= i < pieces@.len() ==> fits(
                #[trigger] pieces.deep_view()[i],
                at_least_one(wrap_cols as nat),
            ),
        has_known_widths(line@),
{
    let wrap: usize = if wrap_cols == 0 {
        1
    } else {
        wrap_cols
    };
    let chars = text::to_chars(line);
    let mut w = Wrapper { done: Vec::new(), piece: String::new(), used: false, column: 0 };
    assert(w.done.deep_view() =~= Seq::<Txt>::empty());
    let mut i: usize = 0;
    while i < chars.len()
        invariant
            i <= chars.len(),
            chars@ == line@,
            w.wf(),
            tab_width > 0,
            w@ == fed_all(line@.take(i as int), wrap as nat, tab_width as nat),
            has_known_widths(line@.take(i as int)),
        decreases chars.len() - i,
    {
        let c = chars[i];
        assert(line@.take(i + 1).drop_last() =~= line@.take(i as int));
        if c == '\t' {
            let spaces: usize = tab_width - w.column % tab_width;
            let ghost before = w@;
            let mut k: usize = 0;
            while k < spaces
                invariant
                    k <= spaces,
                    w.wf(),
                    w@ == padded(before, wrap as nat, k as nat),
                decreases spaces - k,
            {
                w.put(wrap, ' ', 1);
                k += 1;
            }
        } else {
            let width: usize = match columns_of(c) {
                Some(n) => n,
                None => 0,
            };
            if width == 0 {
                if is_control(c) {
                    w.put(wrap, '\u{FFFD}', 1);
                }
            } else {
                w.put(wrap, c, width);
            }
        }
        assert forall|j: int| 0 <= j < i + 1 && line@.take(i + 1)[j] != '\t' implies has_known_width(
            #[trigger] line@.take(i + 1)[j],
        ) by {
            if j < i {
                assert(line@.take(i as int)[j] == line@.take(i + 1)[j]);
            }
        }
        i += 1;
    }
    assert(line@.take(line@.len() as int) =~= line@);
    proof {
        lemma_fed_fits(line@, wrap as nat, tab_width as nat);
    }
    let Wrapper { done, piece, used, column } = w;
    let mut pieces = done;
    let ghost before = pieces.deep_view();
    pieces.push(piece);
    assert(pieces.deep_view() =~= before.push(piece@));
    pieces
}

/// How many columns a character takes that is shown. A blank and U+FFFD take one.
pub open spec fn columns_shown(c: char) -> nat {
    if c == ' ' || c == '\u{FFFD}' {
        1
    } else {
        match char_columns(c) {
            Some(n) => n as nat,
            None => 0,
        }
    }
}

/// How many columns a text takes that is shown.
pub open spec fn text_columns(s: Txt) -> nat
    decreases s.len(),
{
    if s.len() == 0 {
        0
    } else {
        text_columns(s.drop_last()) + columns_shown(s.last())
    }
}

/// Whether a piece has room in `wrap` columns. One of a single character always has.
pub open spec fn fits(piece: Txt, wrap: nat) -> bool {
    text_columns(piece) <= wrap || piece.len() <= 1
}

/// Whether a character takes the columns that are known beforehand: none where it is a control
/// character, and one where it is printable ASCII or U+FFFD.
pub open spec fn has_known_width(c: char) -> bool {
    &&& char_columns(c) is None <==> is_control_char(c)
    &&& (' ' <= c && c <= '~') || c == '\u{FFFD}' ==> char_columns(c) == Some(1usize)
}

/// Whether the characters of a line, tabs apart, take the columns that are known beforehand.
pub open spec fn has_known_widths(line: Txt) -> bool {
    forall|i: int| 0 <= i < line.len() && line[i] != '\t' ==> has_known_width(#[trigger] line[i])
}

/// Whether the characters of all lines do.
pub open spec fn have_known_widths(lines: Seq<Txt>) -> bool {
    forall|k: int| 0 <= k < lines.len() ==> has_known_widths(#[trigger] lines[k])
}

/// Whether all of a line that is being wrapped has room, and the column is right.
spec fn all_fit(w: Wrapping, wrap: nat) -> bool {
    &&& w.column == text_columns(w.piece)
    &&& fits(w.piece, wrap)
    &&& forall|i: int| 0 <= i < w.done.len() ==> fits(#[trigger] w.done[i], wrap)
}

proof fn lemma_placed_fits(w: Wrapping, wrap: nat, c: char, width: nat)
    requires
        all_fit(w, wrap),
        width == columns_shown(c),
    ensures
        all_fit(placed(w, wrap, c, width), wrap),
{
    reveal_with_fuel(text_columns, 2);
    let p = placed(w, wrap, c, width);
    if w.column + width > wrap && w.piece.len() > 0 {
        assert(p.piece.drop_last() =~= Seq::<char>::empty());
    } else {
        assert(p.piece.drop_last() =~= w.piece);
    }
}

proof fn lemma_padded_fits(w: Wrapping, wrap: nat, n: nat)
    requires
        all_fit(w, wrap),
    ensures
        all_fit(padded(w, wrap, n), wrap),
    decreases n,
{
    if n > 0 {
        let k = (n - 1) as nat;
        lemma_padded_fits(w, wrap, k);
        lemma_placed_fits(padded(w, wrap, k), wrap, ' ', 1);
    }
}

proof fn lemma_fed_fits(line: Txt, wrap: nat, tab: nat)
    requires
        has_known_widths(line),
    ensures
        all_fit(fed_all(line, wrap, tab), wrap),
    decreases line.len(),
{
    if line.len() > 0 {
        let head = line.drop_last();
        let c = line.last();
        assert forall|i: int| 0 <= i < head.len() && head[i] != '\t' implies has_known_width(
            #[trigger] head[i],
        ) by {
            assert(head[i] == line[i]);
        }
        lemma_fed_fits(head, wrap, tab);
        let before = fed_all(head, wrap, tab);
        assert(c == line[line.len() - 1]);
        if c == '\t' {
            lemma_padded_fits(before, wrap, (tab - before.column % tab) as nat);
        } else {
            match shown_as(c) {
                Some((shown, width)) => lemma_placed_fits(before, wrap, shown, width),
                None => {},
            }
        }
    }
}

/// No piece of a wrapped line is wider than asked for, unless it is a single character.
pub proof fn law_pieces_fit(line: Txt, wrap: nat, tab: nat, i: int)
    requires
        0 <= i < wrapped(line, wrap, tab).len(),
    ensures
        has_known_widths(line) ==> fits(wrapped(line, wrap, tab)[i], at_least_one(wrap)),
{
    if has_known_widths(line) {
        lemma_fed_fits(line, at_least_one(wrap), tab);
    }
}

/// What is shown of a line without tabs.
pub open spec fn visible(line: Txt) -> Txt
    decreases line.len(),
{
    if line.len() == 0 {
        Seq::empty()
    } else {
        match shown_as(line.last()) {
            Some((shown, _)) => visible(line.drop_last()).push(shown),
            None => visible(line.drop_last()),
        }
    }
}

/// The pieces of a line in one text.
pub open spec fn joined(pieces: Seq<Txt>) -> Txt
    decreases pieces.len(),
{
    if pieces.len() == 0 {
        Seq::empty()
    } else {
        joined(pieces.drop_last()) + pieces.last()
    }
}

/// Wrapping loses nothing and adds nothing: the pieces of a line without tabs, put together,
/// are what is shown of the line, whatever the width.
pub proof fn law_wrapping_keeps_the_text(line: Txt, wrap: nat, tab: nat)
    requires
        !line.contains('\t'),
    ensures
        joined(wrapped(line, wrap, tab)) == visible(line),
{
    let w = fed_all(line, at_least_one(wrap), tab);
    lemma_fed_keeps_the_text(line, at_least_one(wrap), tab);
    assert(w.done.push(w.piece).drop_last() =~= w.done);
}

proof fn lemma_fed_keeps_the_text(line: Txt, wrap: nat, tab: nat)
    requires
        !line.contains('\t'),
    ensures
        joined(fed_all(line, wrap, tab).done) + fed_all(line, wrap, tab).piece == visible(line),
    decreases line.len(),
{
    if line.len() > 0 {
        let before = fed_all(line.drop_last(), wrap, tab);
        assert forall|i: int| 0 <= i < line.len() - 1 implies line.drop_last()[i] != '\t' by {
            assert(line.contains(line[i]));
        }
        lemma_fed_keeps_the_text(line.drop_last(), wrap, tab);
        assert(line.contains(line.last()));
        match shown_as(line.last()) {
            Some((shown, width)) => {
                let after = placed(before, wrap, shown, width);
                if before.column + width > wrap && before.piece.len() > 0 {
                    assert(before.done.push(before.piece).drop_last() =~= before.done);
                    assert(joined(after.done) + after.piece =~= visible(line));
                } else {
                    assert(joined(after.done) + after.piece =~= visible(line));
                }
            },
            None => {},
        }
    } else {
        assert(joined(Seq::<Txt>::empty()) + Seq::<char>::empty() =~= Seq::<char>::empty());
    }
}

/// The pieces of line `number`. Only the first carries the number.
pub open spec fn numbered(pieces: Seq<Txt>, number: nat) -> Seq<DisplayLine<Txt>> {
    Seq::new(
        pieces.len(),
        |i: int|
            DisplayLine {
                gutter: if i == 0 {
                    text::decimal_text(number)
                } else {
                    Seq::empty()
                },
                body: pieces[i],
            },
    )
}

/// All lines, wrapped and numbered from one.
pub open spec fn laid_out(lines: Seq<Txt>, wrap: nat, tab: nat) -> Seq<DisplayLine<Txt>>
    decreases lines.len(),
{
    if lines.len() == 0 {
        Seq::empty()
    } else {
        laid_out(lines.drop_last(), wrap, tab) + numbered(
            wrapped(lines.last(), wrap, tab),
            lines.len(),
        )
    }
}

/// The screen lines of a text.
pub open spec fn text_view(s: Txt, wrap: nat, tab: nat) -> Seq<DisplayLine<Txt>> {
    laid_out(logical_lines(s), wrap, at_least_one(tab))
}

/// How many bytes a line of a dump holds.
pub const DUMP_ROW: usize = 16;

/// The hex part of a dump line, up to column `j`.
pub open spec fn hex_part(chunk: Seq<u8>, j: nat) -> Txt
    decreases j,
{
    if j == 0 {
        Seq::empty()
    } else {
        hex_part(chunk, (j - 1) as nat) + (if j - 1 == 8 {
            "- "@
        } else {
            Seq::empty()
        }) + (if j - 1 < chunk.len() {
            text::hex_text(chunk[j - 1] as nat, 2).push(' ')
        } else {
            "   "@
        })
    }
}

/// A text with every control character replaced by a blank.
pub open spec fn blanked(s: Txt) -> Txt {
    s.map_values(|c: char| if is_control_char(c) { ' ' } else { c })
}

/// The dump line of a chunk that starts at `offset` and reads as `shown`.
pub open spec fn dump_line(chunk: Seq<u8>, offset: nat, shown: Txt) -> DisplayLine<Txt> {
    DisplayLine {
        gutter: text::hex_text(offset, 6),
        body: hex_part(chunk, DUMP_ROW as nat) + "| "@ + blanked(shown),
    }
}

/// The bytes of line `i` of a dump.
pub open spec fn dump_chunk(bytes: Seq<u8>, i: int) -> Seq<u8> {
    let from = i * DUMP_ROW;
    bytes.subrange(
        from,
        if from + DUMP_ROW < bytes.len() {
            from + DUMP_ROW
        } else {
            bytes.len() as int
        },
    )
}

/// The screen lines of a dump. No bytes at all make one empty line.
pub open spec fn dump_view(bytes: Seq<u8>, encoding: Encoding) -> Seq<DisplayLine<Txt>> {
    if bytes.len() == 0 {
        seq![DisplayLine { gutter: "000000"@, body: Seq::empty() }]
    } else {
        Seq::new(
            ((bytes.len() + DUMP_ROW - 1) / DUMP_ROW as int) as nat,
            |i: int|
                dump_line(
                    dump_chunk(bytes, i),
                    (i * DUMP_ROW) as nat,
                    decoded(encoding, dump_chunk(bytes, i)),
                ),
        )
    }
}

/// `s` with every control character replaced by a blank.
fn blank_controls(s: &str) -> (out: String)
    ensures
        out@ == blanked(s@),
{
    let chars = text::to_chars(s);
    let mut out = String::new();
    let mut i: usize = 0;
    while i < chars.len()
        invariant
            i <= chars.len(),
            chars@ == s@,
            out@ == blanked(s@.take(i as int)),
        decreases chars.len() - i,
    {
        out.push(
            if is_control(chars[i]) {
                ' '
            } else {
                chars[i]
            },
        );
        i += 1;
        assert(out@ =~= blanked(s@.take(i as int)));
    }
    assert(s@.take(s@.len() as int) =~= s@);
    out
}

/// The dump line of `chunk`, which starts at `offset` and reads as `shown`.
pub fn dump_row(chunk: &Vec<u8>, offset: u64, shown: &str) -> (line: DisplayLine)
    ensures
        line@ == dump_line(chunk@, offset as nat, shown@),
{
    let mut body = String::new();
    let mut j: usize = 0;
    while j < DUMP_ROW
        invariant
            j <= DUMP_ROW,
            body@ == hex_part(chunk@, j as nat),
        decreases DUMP_ROW - j,
    {
        let ghost before = body@;
        if j == 8 {
            body.append("- ");
        }
        assert(body@ =~= before + (if j == 8 {
            "- "@
        } else {
            Seq::empty()
        }));
        if j < chunk.len() {
            body.append(text::hex(chunk[j] as u64, 2).as_str());
            body.push(' ');
        } else {
            body.append("   ");
        }
        j += 1;
        assert(body@ =~= hex_part(chunk@, j as nat));
    }
    body.append("| ");
    body.append(blank_controls(shown).as_str());
    DisplayLine { gutter: text::hex(offset, 6), body }
}

/// The bytes that a viewer shows, and how.
pub struct ViewerModel {
    pub bytes: Vec<u8>,
    pub encoding: Encoding,
    pub mode: ViewMode,
}

impl ViewerModel {
    /// Shows `bytes` as UTF-8 text.
    pub fn new(bytes: Vec<u8>) -> (model: Self)
        ensures
            model == (ViewerModel { bytes, encoding: Encoding::Utf8, mode: ViewMode::Text }),
    {
        ViewerModel { bytes, encoding: Encoding::Utf8, mode: ViewMode::Text }
    }

    /// Shows `bytes` as UTF-8 text, or as a dump where they look like no text.
    pub fn open(bytes: Vec<u8>) -> (model: Self)
        ensures
            model.bytes == bytes,
            model.encoding == Encoding::Utf8,
            model.mode == (if binary_like(bytes@) {
                ViewMode::Binary
            } else {
                ViewMode::Text
            }),
    {
        let mode = if looks_binary(bytes.as_slice()) {
            ViewMode::Binary
        } else {
            ViewMode::Text
        };
        ViewerModel { bytes, encoding: Encoding::Utf8, mode }
    }

    /// Switches to the next encoding, or to the one before.
    pub fn cycle_encoding(&mut self, forward: bool)
        ensures
            final(self).encoding.place() == (if forward {
                (old(self).encoding.place() + 1) % 6
            } else {
                (old(self).encoding.place() + 5) % 6
            }),
            final(self).bytes == old(self).bytes,
            final(self).mode == old(self).mode,
    {
        self.encoding = self.encoding.cycle(forward);
    }

    /// Switches between text and dump.
    pub fn toggle_mode(&mut self)
        ensures
            final(self).mode != old(self).mode,
            final(self).bytes == old(self).bytes,
            final(self).encoding == old(self).encoding,
    {
        self.mode = match self.mode {
            ViewMode::Text => ViewMode::Binary,
            ViewMode::Binary => ViewMode::Text,
        };
    }

    /// What is on the screen.
    pub open spec fn screen(&self, wrap: nat, tab: nat) -> Seq<DisplayLine<Txt>> {
        match self.mode {
            ViewMode::Text => text_view(decoded(self.encoding, self.bytes@), wrap, tab),
            ViewMode::Binary => dump_view(self.bytes@, self.encoding),
        }
    }

    /// The lines on the screen. `wrap_cols` is the width that text is wrapped at, `tab_width`
    /// the distance of the tab stops; a dump heeds neither.
    pub fn lines(&self, wrap_cols: usize, tab_width: usize) -> (lines: Vec<DisplayLine>)
        ensures
            lines_of(lines@) == self.screen(wrap_cols as nat, tab_width as nat),
            self.mode is Text ==> have_known_widths(
                logical_lines(decoded(self.encoding, self.bytes@)),
            ),
    {
        match self.mode {
            ViewMode::Text => {
                let shown = self.encoding.decode(self.bytes.as_slice());
                text_lines(shown.as_str(), wrap_cols, tab_width)
            },
            ViewMode::Binary => self.binary_lines(),
        }
    }

    /// The lines of the dump.
    fn binary_lines(&self) -> (lines: Vec<DisplayLine>)
        ensures
            lines_of(lines@) == dump_view(self.bytes@, self.encoding),
    {
        let mut out: Vec<DisplayLine> = Vec::new();
        if self.bytes.len() == 0 {
            out.push(DisplayLine { gutter: text::copy("000000"), body: String::new() });
            assert(lines_of(out@) =~= dump_view(self.bytes@, self.encoding));
            return out;
        }
        let mut from: usize = 0;
        let ghost all = dump_view(self.bytes@, self.encoding);
        while from < self.bytes.len()
            invariant
                self.bytes.len() > 0,
                all == dump_view(self.bytes@, self.encoding),
                from <= self.bytes.len(),
                from < self.bytes.len() ==> from == out.len() * DUMP_ROW,
                from == self.bytes.len() ==> out.len() == all.len(),
                out.len() <= all.len(),
                lines_of(out@) == all.take(out.len() as int),
            decreases self.bytes.len() - from,
        {
            let to: usize = if self.bytes.len() - from > DUMP_ROW {
                from + DUMP_ROW
            } else {
                self.bytes.len()
            };
            let mut chunk: Vec<u8> = Vec::new();
            let mut i: usize = from;
            while i < to
                invariant
                    from <= i <= to <= self.bytes.len(),
                    chunk@ == self.bytes@.subrange(from as int, i as int),
                decreases to - i,
            {
                chunk.push(self.bytes[i]);
                i += 1;
                assert(chunk@ =~= self.bytes@.subrange(from as int, i as int));
            }
            let shown = self.encoding.decode(chunk.as_slice());
            let line = dump_row(&chunk, from as u64, shown.as_str());
            let ghost n = out.len() as int;
            proof {
                assert(dump_chunk(self.bytes@, n) == chunk@);
                assert(all[n] == line@);
            }
            let ghost before = out@;
            out.push(line);
            assert(lines_of(out@) =~= lines_of(before).push(line@));
            assert(all.take(n + 1) =~= all.take(n).push(all[n]));
            from = to;
        }
        assert(all.take(all.len() as int) =~= all);
        out
    }
}

/// The screen lines of the text `shown`.
pub fn text_lines(shown: &str, wrap_cols: usize, tab_width: usize) -> (lines: Vec<DisplayLine>)
    ensures
        lines_of(lines@) == text_view(shown@, wrap_cols as nat, tab_width as nat),
        have_known_widths(logical_lines(shown@)),
{
    let tab: usize = if tab_width == 0 {
        1
    } else {
        tab_width
    };
    let logical = split_lines(shown);
    let ghost all = logical_lines(shown@);
    let mut out: Vec<DisplayLine> = Vec::new();
    let mut n: usize = 0;
    assert(lines_of(out@) =~= Seq::<DisplayLine<Txt>>::empty());
    while n < logical.len()
        invariant
            n <= logical.len(),
            logical.deep_view() == all,
            tab > 0,
            have_known_widths(all.take(n as int)),
            lines_of(out@) == laid_out(all.take(n as int), wrap_cols as nat, tab as nat),
        decreases logical.len() - n,
    {
        let ghost before = lines_of(out@);
        let pieces = wrap_line(logical[n].as_str(), wrap_cols, tab);
        let ghost marked = numbered(pieces.deep_view(), (n + 1) as nat);
        let mut i: usize = 0;
        while i < pieces.len()
            invariant
                i <= pieces.len(),
                n < logical.len(),
                marked == numbered(pieces.deep_view(), (n + 1) as nat),
                lines_of(out@) == before + marked.take(i as int),
            decreases pieces.len() - i,
        {
            let gutter = if i == 0 {
                text::decimal((n + 1) as u64)
            } else {
                String::new()
            };
            let line = DisplayLine { gutter, body: pieces[i].clone() };
            let ghost prior = out@;
            out.push(line);
            assert(line@ == marked[i as int]);
            assert(lines_of(out@) =~= lines_of(prior).push(line@));
            i += 1;
            assert(before + marked.take(i as int) =~= (before + marked.take(i - 1)).push(
                marked[i - 1],
            ));
        }
        assert forall|k: int| 0 <= k < n + 1 implies has_known_widths(
            #[trigger] all.take(n + 1)[k],
        ) by {
            if k < n {
                assert(all.take(n as int)[k] == all.take(n + 1)[k]);
            } else {
                assert(all[n as int] == logical@[n as int]@);
            }
        }
        n += 1;
        assert(marked.take(marked.len() as int) =~= marked);
        assert(all.take(n as int).drop_last() =~= all.take(n - 1));
        assert(pieces.deep_view() == wrapped(all[n - 1], wrap_cols as nat, tab as nat));
    }
    assert(all.take(all.len() as int) =~= all);
    out
}

/// There is always a line on the screen.
pub proof fn law_screen_is_never_empty(model: &ViewerModel, wrap: nat, tab: nat)
    ensures
        model.screen(wrap, tab).len() > 0,
{
    match model.mode {
        ViewMode::Text => {
            let lines = logical_lines(decoded(model.encoding, model.bytes@));
            assert(lines.len() > 0);
            assert(wrapped(lines.last(), wrap, at_least_one(tab)).len() > 0);
        },
        ViewMode::Binary => {},
    }
}

/// Switching between text and dump twice changes nothing.
pub proof fn law_modes_alternate(a: ViewMode, b: ViewMode, c: ViewMode)
    requires
        b != a,
        c != b,
    ensures
        c == a,
{
}

/// Going forward and back in the encodings changes nothing, and six steps forward come back
/// to the start.
pub proof fn law_encodings_go_round(place: int)
    requires
        0 <= place < 6,
    ensures
        ((place + 1) % 6 + 5) % 6 == place,
        ((place + 5) % 6 + 1) % 6 == place,
        (((((((((((place + 1) % 6) + 1) % 6) + 1) % 6) + 1) % 6) + 1) % 6) + 1) % 6 == place,
{
}

} // verus!

//! A text field with completion: the list below it, and the keys that move in it.

use crate::dialog::completion::{CompletionItem, CompletionMember, PaletteCommand};
use crate::dialog::completion::{code_completions, command_completions, pickable_rows};
use crate::dialog::completion;
use crate::dialog;
use crate::text;
use crate::winpath;
use vstd::prelude::*;

verus! {

/// A text in specifications.
pub type Txt = Seq<char>;

/// What a key does.
#[derive(Clone, Copy, Debug, PartialEq, Eq, Structural)]
pub enum KeyMessage {
    Down,
    Up,
    /// A character comes of it.
    Char,
}

/// The text field's list.
pub struct Completer {
    /// What a row replaces, from where to where in UTF-16 units. The list is shown while there
    /// is something.
    pub range: Option<(u32, u32)>,
    pub rows: Vec<CompletionItem>,
    /// The row that is selected, if one is.
    pub selected: Option<usize>,
    /// The Control key is down.
    pub ctrl: bool,
    /// The next space is not written: it belongs to the key that opened the list.
    pub suppress_space: bool,
}

/// What becomes of a key.
#[derive(Clone, Copy, Debug, PartialEq, Eq, Structural)]
pub struct KeyOutcome {
    /// The text field does not get it.
    pub consumed: bool,
    /// What is offered is looked up anew; whether the user asks for it.
    pub refresh: Option<bool>,
    /// A row is picked.
    pub accept: Option<usize>,
}

/// What is inserted for a row.
pub struct Insertion {
    /// From where to where the text is replaced, in UTF-16 units.
    pub start: u32,
    pub end: u32,
    pub text: String,
    /// Where the caret goes, where it does not stay behind what was inserted.
    pub caret: Option<u128>,
}

/// The key is left alone.
pub open spec fn passed() -> KeyOutcome {
    KeyOutcome { consumed: false, refresh: None, accept: None }
}

/// The key is consumed.
pub open spec fn consumed() -> KeyOutcome {
    KeyOutcome { consumed: true, refresh: None, accept: None }
}

fn pass() -> (outcome: KeyOutcome)
    ensures
        outcome == passed(),
{
    KeyOutcome { consumed: false, refresh: None, accept: None }
}

fn consume() -> (outcome: KeyOutcome)
    ensures
        outcome == consumed(),
{
    KeyOutcome { consumed: true, refresh: None, accept: None }
}

/// Whether the list is as it should be: while it is shown there are rows, and one of them is
/// selected.
pub open spec fn wf(c: Completer) -> bool {
    c.range is Some ==> c.rows@.len() > 0 && (c.selected matches Some(i) && i < c.rows@.len())
}

/// The first row that can be picked, or the first where none can.
pub open spec fn first_pick(rows: Seq<CompletionItem<Txt>>) -> int {
    let picks = completion::pickable(rows, rows.len() as int);
    if picks.len() > 0 {
        picks[0]
    } else {
        0
    }
}

/// Where a row is among those that can be picked: the first that is not before it, or the last.
pub open spec fn place_among(picks: Seq<int>, row: int, from: int) -> int
    decreases picks.len() - from,
{
    if from < 0 || from >= picks.len() {
        picks.len() - 1
    } else if picks[from] >= row {
        from
    } else {
        place_among(picks, row, from + 1)
    }
}

/// Where a key leads among `n` rows that can be picked: one up or down, or a page.
pub open spec fn moved(place: int, code: usize, page: int, n: int) -> int {
    if code == 0x26 {
        if place > 0 {
            place - 1
        } else {
            0
        }
    } else if code == 0x28 {
        if place + 1 < n {
            place + 1
        } else {
            n - 1
        }
    } else if code == 0x21 {
        if place >= page {
            place - page
        } else {
            0
        }
    } else if place + page < n {
        place + page
    } else {
        n - 1
    }
}

/// Whether a key moves in the list.
pub open spec fn moves(code: usize) -> bool {
    code == 0x21 || code == 0x22 || code == 0x26 || code == 0x28
}

/// Whether letting a key go moved the caret: left, right, Home and End do; up and down do while
/// the list is not shown.
pub open spec fn moved_caret(code: usize, shown: bool) -> bool {
    code == 0x25 || code == 0x27 || code == 0x24 || code == 0x23 || ((code == 0x26 || code == 0x28)
        && !shown)
}

/// What becomes of a key, and what the list is then.
pub open spec fn keyed(
    c: Completer,
    message: KeyMessage,
    code: usize,
    focused: bool,
    page: int,
    after: Completer,
    outcome: KeyOutcome,
) -> bool {
    let rows = completion::items_of(c.rows@);
    let picks = completion::pickable(rows, rows.len() as int);
    &&& after.range == c.range
    &&& after.rows == c.rows
    &&& if code == 0x11 {
        &&& after.ctrl == (match message {
            KeyMessage::Down => true,
            KeyMessage::Up => false,
            KeyMessage::Char => c.ctrl,
        })
        &&& after.selected == c.selected
        &&& after.suppress_space == c.suppress_space
        &&& outcome == passed()
    } else {
        &&& after.ctrl == c.ctrl
        &&& if !focused {
            &&& after.selected == c.selected
            &&& after.suppress_space == c.suppress_space
            &&& outcome == passed()
        } else if message == KeyMessage::Down && code == 0x20 && c.ctrl {
            &&& after.selected == c.selected
            &&& after.suppress_space
            &&& outcome == KeyOutcome { consumed: true, refresh: Some(true), accept: None }
        } else if message == KeyMessage::Char && code == 0x20 && c.suppress_space {
            &&& after.selected == c.selected
            &&& !after.suppress_space
            &&& outcome == consumed()
        } else {
            &&& after.suppress_space == c.suppress_space
            &&& if message == KeyMessage::Up {
                &&& after.selected == c.selected
                &&& outcome == KeyOutcome {
                    consumed: false,
                    refresh: if moved_caret(code, c.range is Some) {
                        Some(false)
                    } else {
                        None
                    },
                    accept: None,
                }
            } else if c.range is None {
                &&& after.selected == c.selected
                &&& outcome == passed()
            } else if message == KeyMessage::Down && moves(code) {
                if rows.len() == 0 {
                    after.selected == c.selected && outcome == passed()
                } else if picks.len() == 0 {
                    after.selected == c.selected && outcome == consumed()
                } else {
                    let place = place_among(
                        picks,
                        match c.selected {
                            Some(i) => i as int,
                            None => 0,
                        },
                        0,
                    );
                    &&& after.selected matches Some(i) && i == picks[moved(
                        place,
                        code,
                        page,
                        picks.len() as int,
                    )]
                    &&& outcome == consumed()
                }
            } else if message == KeyMessage::Char && code == 0x0D {
                &&& after.selected == c.selected
                &&& outcome == KeyOutcome { consumed: true, refresh: None, accept: c.selected }
            } else {
                &&& after.selected == c.selected
                &&& outcome == passed()
            }
        }
    }
}

/// What a row is shown as: with a tab before what is said of it.
pub open spec fn shown_as(item: CompletionItem<Txt>) -> Txt {
    match item.detail {
        Some(detail) => item.display + "\t"@ + detail,
        None => item.display,
    }
}

/// How many rows a list shows at once.
pub fn page_of(client_h: i32, item_h: Option<i32>) -> (page: usize)
    ensures
        page >= 1,
        ({
            let h = match item_h {
                Some(h) => if h < 1 {
                    1
                } else {
                    h as int
                },
                None => 1,
            };
            page == (if client_h < h {
                1
            } else {
                client_h as int / h
            })
        }),
{
    let h: i32 = match item_h {
        Some(h) => if h < 1 {
            1
        } else {
            h
        },
        None => 1,
    };
    if client_h < h {
        1
    } else {
        assert(client_h as int / h as int >= 1) by (nonlinear_arith)
            requires
                client_h >= h,
                h >= 1,
        ;
        (client_h / h) as usize
    }
}

proof fn lemma_picks(rows: Seq<CompletionItem<Txt>>, n: int)
    requires
        0 <= n <= rows.len(),
    ensures
        forall|i: int|
            0 <= i < completion::pickable(rows, n).len() ==> 0 <= #[trigger] completion::pickable(
                rows,
                n,
            )[i] < n && rows[completion::pickable(rows, n)[i]].selectable,
    decreases n,
{
    if n > 0 {
        lemma_picks(rows, n - 1);
    }
}

/// What stands before the caret, where that is so many UTF-16 units behind the beginning. A
/// character that the caret splits counts as U+FFFD.
pub open spec fn before_caret(s: Txt, caret: int) -> Txt
    decreases s.len(),
{
    if s.len() == 0 || caret <= 0 {
        Seq::empty()
    } else if winpath::utf16_of(s[0]).len() <= caret {
        seq![s[0]] + before_caret(s.skip(1), caret - winpath::utf16_of(s[0]).len())
    } else {
        seq!['\u{FFFD}']
    }
}

proof fn lemma_utf16_grows(s: Txt, n: int)
    requires
        0 <= n <= s.len(),
    ensures
        winpath::utf16(s.take(n)).len() <= winpath::utf16(s).len(),
    decreases s.len() - n,
{
    if n < s.len() {
        lemma_utf16_grows(s, n + 1);
        assert(s.take(n + 1).drop_last() =~= s.take(n));
    } else {
        assert(s.take(n) =~= s);
    }
}

/// What stands before the caret, and where the caret is: it is not behind the end.
pub fn text_before_caret(written: &str, caret: u32) -> (before: (String, u32))
    ensures
        before.0@ == before_caret(written@, caret as int),
        before.1 == winpath::utf16(before.0@).len(),
        before.1 == (if caret <= winpath::utf16(written@).len() {
            caret as int
        } else {
            winpath::utf16(written@).len() as int
        }),
{
    let chars = text::to_chars(written);
    let ghost all = written@;
    let mut out = String::new();
    let mut used: u32 = 0;
    let mut i: usize = 0;
    proof {
        assert(all.skip(0) =~= all);
        assert(all.take(0) =~= Seq::empty());
    }
    while i < chars.len() && used < caret
        invariant
            i <= chars.len(),
            chars@ == all,
            all == written@,
            used <= caret,
            used == winpath::utf16(out@).len(),
            used == winpath::utf16(all.take(i as int)).len(),
            before_caret(all, caret as int) == out@ + before_caret(
                all.skip(i as int),
                caret - used,
            ),
        decreases chars.len() - i,
    {
        let c: char = chars[i];
        let n: u32 = if (c as u32) < 0x10000 {
            1
        } else {
            2
        };
        proof {
            assert(all.skip(i as int)[0] == c);
            assert(all.skip(i as int).skip(1) =~= all.skip(i + 1));
            assert(all.take(i + 1).drop_last() =~= all.take(i as int));
            assert(out@.push(c).drop_last() =~= out@);
            assert(out@ + (seq![c] + before_caret(all.skip(i + 1), caret - used - n)) =~= out@.push(
                c,
            ) + before_caret(all.skip(i + 1), caret - used - n));
            lemma_utf16_grows(all, i + 1);
        }
        if n > caret - used {
            assert(out@ + seq!['\u{FFFD}'] =~= out@.push('\u{FFFD}'));
            assert(out@.push('\u{FFFD}').drop_last() =~= out@);
            out.push('\u{FFFD}');
            return (out, caret);
        }
        out.push(c);
        used = used + n;
        i += 1;
    }
    proof {
        lemma_utf16_grows(all, i as int);
        assert(out@ + Seq::<char>::empty() =~= out@);
        if i == chars.len() {
            assert(all.take(i as int) =~= all);
        }
    }
    (out, used)
}

/// What the list of a field for code is after `force` or a change: the rows for what stands
/// before the caret, as far as they are worth showing.
pub open spec fn offers_code(
    members: Seq<CompletionMember>,
    before: Txt,
    force: bool,
    after: Completer,
) -> bool {
    let at = winpath::utf16(before).len();
    match after.range {
        Some((start, end)) => {
            &&& end == at
            &&& completion::prefix_of(before) matches Some(prefix) && {
                let rows = completion::items_of(after.rows@);
                &&& start == at - winpath::utf16(prefix).len()
                &&& completion::are_rows(
                    completion::matching(
                        members,
                        completion::ranks_for(members, prefix),
                        members.len() as int,
                    ),
                    rows,
                )
                &&& completion::worth_showing(rows, prefix, force)
                &&& after.selected matches Some(i) && i == first_pick(rows)
            }
        },
        None => {
            &&& after.rows@.len() == 0
            &&& completion::prefix_of(before) matches Some(prefix) ==> exists|
                rows: Seq<CompletionItem<Txt>>,
            |
                #[trigger] completion::are_rows(
                    completion::matching(
                        members,
                        completion::ranks_for(members, prefix),
                        members.len() as int,
                    ),
                    rows,
                ) && !completion::worth_showing(rows, prefix, force)
        },
    }
}

/// What the list of the command palette is after `force` or a change: the commands for what
/// stands before the caret, which they replace.
pub open spec fn offers_commands(
    commands: Seq<PaletteCommand>,
    before: Txt,
    force: bool,
    after: Completer,
) -> bool {
    match completion::palette_offer(commands, before, force) {
        Some(rows) => {
            &&& after.range == Some((0u32, winpath::utf16(before).len() as u32))
            &&& completion::items_of(after.rows@) == rows
            &&& after.selected matches Some(i) && i == first_pick(rows)
        },
        None => after.range is None && after.rows@.len() == 0,
    }
}

impl Completer {
    /// The text of a field for code or its caret changed, or the user asks for the list.
    pub fn refresh_code(
        &mut self,
        members: &Vec<CompletionMember>,
        written: &str,
        caret: u32,
        force: bool,
    )
        ensures
            wf(*final(self)),
            completion::carets_fit(completion::items_of(final(self).rows@)),
            final(self).ctrl == old(self).ctrl,
            final(self).suppress_space == old(self).suppress_space,
            offers_code(members@, before_caret(written@, caret as int), force, *final(self)),
    {
        let (before, at) = text_before_caret(written, caret);
        let offer = code_completions(members, before.as_str(), at, force);
        assert(match offer {
            Some((_, items)) => completion::items_of(items@).len() == items@.len(),
            None => true,
        });
        self.update(offer, at);
    }

    /// The text of the command palette or its caret changed, or the user asks for the list.
    pub fn refresh_commands(
        &mut self,
        commands: &Vec<PaletteCommand>,
        written: &str,
        caret: u32,
        force: bool,
    )
        ensures
            wf(*final(self)),
            completion::carets_fit(completion::items_of(final(self).rows@)),
            final(self).ctrl == old(self).ctrl,
            final(self).suppress_space == old(self).suppress_space,
            offers_commands(
                commands@,
                before_caret(written@, caret as int),
                force,
                *final(self),
            ),
    {
        let (before, at) = text_before_caret(written, caret);
        let offer = command_completions(commands, before.as_str(), force);
        assert(match offer {
            Some((_, items)) => completion::items_of(items@).len() == items@.len(),
            None => true,
        });
        self.update(offer, at);
    }

    /// Nothing is offered.
    pub fn new() -> (c: Self)
        ensures
            c.range is None,
            c.rows@.len() == 0,
            c.selected is None,
            !c.ctrl,
            !c.suppress_space,
            wf(c),
    {
        Completer {
            range: None,
            rows: Vec::new(),
            selected: None,
            ctrl: false,
            suppress_space: false,
        }
    }

    /// What is offered was looked up: rows, and where what they replace starts. Without rows the
    /// list is not shown.
    pub fn update(&mut self, offer: Option<(u32, Vec<CompletionItem>)>, caret: u32)
        ensures
            wf(*final(self)),
            final(self).ctrl == old(self).ctrl,
            final(self).suppress_space == old(self).suppress_space,
            match offer {
                Some((start, items)) if items@.len() > 0 => {
                    &&& final(self).range == Some((start, caret))
                    &&& final(self).rows == items
                    &&& final(self).selected matches Some(i) && i == first_pick(
                        completion::items_of(items@),
                    )
                },
                _ => {
                    &&& final(self).range is None
                    &&& final(self).rows@.len() == 0
                    &&& final(self).selected == old(self).selected
                },
            },
    {
        match offer {
            Some((start, items)) => {
                if items.len() > 0 {
                    let picks = pickable_rows(&items);
                    proof {
                        lemma_picks(completion::items_of(items@), items@.len() as int);
                    }
                    let first: usize = if picks.len() > 0 {
                        assert(completion::places_of(picks@)[0] == picks@[0]);
                        picks[0]
                    } else {
                        0
                    };
                    assert(first == first_pick(completion::items_of(items@)));
                    self.rows = items;
                    self.selected = Some(first);
                    self.range = Some((start, caret));
                    return;
                }
            },
            None => {},
        }
        self.range = None;
        self.rows = Vec::new();
    }

    /// What the rows are shown as.
    pub fn displays(&self) -> (lines: Vec<String>)
        ensures
            lines@.len() == self.rows@.len(),
            forall|i: int|
                0 <= i < lines@.len() ==> (#[trigger] lines@[i])@ == shown_as(self.rows@[i]@),
    {
        let mut lines: Vec<String> = Vec::new();
        let mut i: usize = 0;
        while i < self.rows.len()
            invariant
                i <= self.rows.len(),
                lines@.len() == i,
                forall|j: int|
                    0 <= j < i ==> (#[trigger] lines@[j])@ == shown_as(self.rows@[j]@),
            decreases self.rows.len() - i,
        {
            let row = &self.rows[i];
            lines.push(
                match &row.detail {
                    Some(detail) => text::concat3(row.display.as_str(), "\t", detail.as_str()),
                    None => text::copy(row.display.as_str()),
                },
            );
            i += 1;
        }
        lines
    }

    /// A row is picked. Headings cannot be, and nothing can while the list is not shown. What is
    /// replaced is what the list was shown for, and the list is shown no more.
    pub fn accept(&mut self, row: usize) -> (insertion: Option<Insertion>)
        requires
            completion::carets_fit(completion::items_of(old(self).rows@)),
        ensures
            match insertion {
                Some(ins) => {
                    &&& row < old(self).rows@.len()
                    &&& old(self).rows@[row as int].selectable
                    &&& old(self).range == Some((ins.start, ins.end))
                    &&& ins.text@ == old(self).rows@[row as int].insert@
                    &&& match ins.caret {
                        Some(at) => old(self).rows@[row as int].caret_back > 0 && at == ins.start
                            + winpath::utf16(ins.text@).len() - old(
                            self,
                        ).rows@[row as int].caret_back,
                        None => old(self).rows@[row as int].caret_back == 0,
                    }
                    &&& final(self).range is None
                },
                None => {
                    &&& row >= old(self).rows@.len() || !old(self).rows@[row as int].selectable
                        || old(self).range is None
                    &&& final(self).range == old(self).range
                },
            },
            final(self).rows == old(self).rows,
            final(self).selected == old(self).selected,
            final(self).ctrl == old(self).ctrl,
            final(self).suppress_space == old(self).suppress_space,
    {
        if row >= self.rows.len() || !self.rows[row].selectable {
            return None;
        }
        match self.range {
            None => None,
            Some((start, end)) => {
                let item = &self.rows[row];
                assert(completion::items_of(old(self).rows@)[row as int] == item@);
                let text = text::copy(item.insert.as_str());
                let caret = if item.caret_back > 0 {
                    let n: u128 = dialog::utf16_len(text.as_str()) as u128;
                    assert(item.caret_back <= n);
                    Some(start as u128 + (n - item.caret_back as u128))
                } else {
                    None
                };
                self.range = None;
                Some(Insertion { start, end, text, caret })
            },
        }
    }

    /// A key goes down or up, or a character comes of it. `focused` says whether the text field
    /// has the focus, `page` how many rows the list shows at once.
    pub fn key(&mut self, message: KeyMessage, code: usize, focused: bool, page: usize) -> (
        outcome: KeyOutcome)
        requires
            wf(*old(self)),
        ensures
            wf(*final(self)),
            keyed(*old(self), message, code, focused, page as int, *final(self), outcome),
    {
        if code == 0x11 {
            match message {
                KeyMessage::Down => {
                    self.ctrl = true;
                },
                KeyMessage::Up => {
                    self.ctrl = false;
                },
                KeyMessage::Char => {},
            }
            return pass();
        }
        if !focused {
            return pass();
        }
        if message == KeyMessage::Down && code == 0x20 && self.ctrl {
            self.suppress_space = true;
            return KeyOutcome { consumed: true, refresh: Some(true), accept: None };
        }
        if message == KeyMessage::Char && code == 0x20 && self.suppress_space {
            self.suppress_space = false;
            return consume();
        }
        if message == KeyMessage::Up {
            let sideways = code == 0x25 || code == 0x27 || code == 0x24 || code == 0x23;
            let upright = code == 0x26 || code == 0x28;
            let refresh = if sideways || (upright && self.range.is_none()) {
                Some(false)
            } else {
                None
            };
            return KeyOutcome { consumed: false, refresh, accept: None };
        }
        if self.range.is_none() {
            return pass();
        }
        if message == KeyMessage::Down && (code == 0x21 || code == 0x22 || code == 0x26 || code
            == 0x28) {
            if self.rows.len() == 0 {
                return pass();
            }
            let picks = pickable_rows(&self.rows);
            if picks.len() == 0 {
                return consume();
            }
            let place = self.place(&picks);
            let last: usize = picks.len() - 1;
            let next: usize = if code == 0x26 {
                if place > 0 {
                    place - 1
                } else {
                    0
                }
            } else if code == 0x28 {
                if place < last {
                    place + 1
                } else {
                    last
                }
            } else if code == 0x21 {
                if place >= page {
                    place - page
                } else {
                    0
                }
            } else if page <= last - place {
                place + page
            } else {
                last
            };
            let ghost all = completion::places_of(picks@);
            assert(next == moved(place as int, code, page as int, all.len() as int));
            assert(all[next as int] == picks@[next as int]);
            self.selected = Some(picks[next]);
            return consume();
        }
        if message == KeyMessage::Char && code == 0x0D {
            return KeyOutcome { consumed: true, refresh: None, accept: self.selected };
        }
        pass()
    }

    /// Where the selected row is among those that can be picked.
    fn place(&self, picks: &Vec<usize>) -> (at: usize)
        requires
            picks@.len() > 0,
        ensures
            at < picks@.len(),
            at == place_among(
                completion::places_of(picks@),
                match self.selected {
                    Some(i) => i as int,
                    None => 0,
                },
                0,
            ),
    {
        let row: usize = match self.selected {
            Some(i) => i,
            None => 0,
        };
        let ghost all = completion::places_of(picks@);
        let mut i: usize = 0;
        while i < picks.len()
            invariant
                i <= picks.len(),
                all == completion::places_of(picks@),
                place_among(all, row as int, 0) == place_among(all, row as int, i as int),
                row == (match self.selected {
                    Some(i) => i as int,
                    None => 0,
                }),
            decreases picks.len() - i,
        {
            assert(all[i as int] == picks@[i as int]);
            if picks[i] >= row {
                return i;
            }
            i += 1;
        }
        picks.len() - 1
    }
}

/// Moving in the list never lands on a heading, and never leaves the list.
pub proof fn law_moves_skip_headings(
    c: Completer,
    message: KeyMessage,
    code: usize,
    page: int,
    after: Completer,
    outcome: KeyOutcome,
)
    requires
        wf(c),
        page >= 1,
        c.range is Some,
        message == KeyMessage::Down && moves(code) && !c.ctrl,
        completion::pickable(completion::items_of(c.rows@), c.rows@.len() as int).len() > 0,
        keyed(c, message, code, true, page, after, outcome),
    ensures
        outcome.consumed,
        after.selected matches Some(i) && i < c.rows@.len() && c.rows@[i as int].selectable,
{
    let rows = completion::items_of(c.rows@);
    lemma_picks(rows, rows.len() as int);
    let picks = completion::pickable(rows, rows.len() as int);
    let row = match c.selected {
        Some(i) => i as int,
        None => 0,
    };
    lemma_place_in_range(picks, row, 0);
    let place = place_among(picks, row, 0);
    let next = moved(place, code, page, picks.len() as int);
    assert(0 <= next < picks.len());
    assert(rows[picks[next]] == c.rows@[picks[next]]@);
}

proof fn lemma_place_in_range(picks: Seq<int>, row: int, from: int)
    requires
        picks.len() > 0,
        0 <= from,
    ensures
        0 <= place_among(picks, row, from) < picks.len(),
    decreases picks.len() - from,
{
    if from < picks.len() && picks[from] < row {
        lemma_place_in_range(picks, row, from + 1);
    }
}

/// While the list is not shown, no key picks a row, and only the key that opens the list and
/// the space that belongs to it are kept from the text field.
pub proof fn law_hidden_list_is_out_of_the_way(
    c: Completer,
    message: KeyMessage,
    code: usize,
    focused: bool,
    page: int,
    after: Completer,
    outcome: KeyOutcome,
)
    requires
        c.range is None,
        keyed(c, message, code, focused, page, after, outcome),
    ensures
        outcome.accept is None,
        outcome.consumed ==> code == 0x20 && focused && (c.ctrl || c.suppress_space),
{
}

} // verus!

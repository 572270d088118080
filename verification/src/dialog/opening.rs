//! How a dialog opens and closes: its window, and in what order things are done.

use crate::dialog::ModalDepth;
use crate::dialog::layout::resolve_dialog_size;
use crate::dialog::layout;
use crate::text;
use vstd::prelude::*;

verus! {

/// A text in specifications.
pub type Txt = Seq<char>;

/// The window of a dialog, at the standard resolution.
#[derive(Clone, Debug, PartialEq, Eq)]
pub struct ModalWindow<S = String> {
    pub title: S,
    pub w: i32,
    pub h: i32,
    /// It has a button that closes it.
    pub sys_menu: bool,
    /// Its size can be changed.
    pub size_box: bool,
    /// It is shown at once.
    pub visible: bool,
    /// It does not become the active window.
    pub no_activate: bool,
    /// The least size that it can be given.
    pub least: Option<(i32, i32)>,
}

impl View for ModalWindow<String> {
    type V = ModalWindow<Txt>;

    open spec fn view(&self) -> ModalWindow<Txt> {
        ModalWindow {
            title: self.title@,
            w: self.w,
            h: self.h,
            sys_menu: self.sys_menu,
            size_box: self.size_box,
            visible: self.visible,
            no_activate: self.no_activate,
            least: self.least,
        }
    }
}

/// The window of a dialog. Where nothing is to come to the front, it is neither shown at once nor
/// made active.
pub open spec fn styled(
    title: Txt,
    w: i32,
    h: i32,
    sys_menu: bool,
    size_box: bool,
    headless: bool,
) -> ModalWindow<Txt> {
    ModalWindow {
        title,
        w,
        h,
        sys_menu,
        size_box,
        visible: !headless,
        no_activate: headless,
        least: None,
    }
}

/// The window of a dialog.
fn modal_window_styled(
    title: &str,
    w: i32,
    h: i32,
    sys_menu: bool,
    size_box: bool,
    headless: bool,
) -> (window: ModalWindow)
    ensures
        window@ == styled(title@, w, h, sys_menu, size_box, headless),
{
    ModalWindow {
        title: text::copy(title),
        w,
        h,
        sys_menu,
        size_box,
        visible: !headless,
        no_activate: headless,
        least: None,
    }
}

/// The window of most dialogs.
pub fn modal_window(title: &str, w: i32, h: i32, headless: bool) -> (window: ModalWindow)
    ensures
        window@ == styled(title@, w, h, false, false, headless),
{
    modal_window_styled(title, w, h, false, false, headless)
}

/// The window of a dialog with a button that closes it.
pub fn modal_window_sysmenu(title: &str, w: i32, h: i32, headless: bool) -> (window: ModalWindow)
    ensures
        window@ == styled(title@, w, h, true, false, headless),
{
    modal_window_styled(title, w, h, true, false, headless)
}

/// The window of a dialog whose size can be changed. It opens with the size that it was closed
/// with, as far as that is not too small or too large.
pub fn modal_window_resizable_keyed(
    title: &str,
    saved: Option<(i32, i32)>,
    usual: (i32, i32),
    least: (i32, i32),
    screen: (i32, i32),
    headless: bool,
) -> (window: ModalWindow)
    ensures
        ({
            let (w, h) = layout::opening_size(saved, usual, least, screen);
            window@ == (ModalWindow {
                least: Some(least),
                ..styled(title@, w as i32, h as i32, true, true, headless)
            })
        }),
{
    let (w, h) = resolve_dialog_size(saved, usual, least, screen);
    let window = modal_window_styled(title, w, h, true, true, headless);
    ModalWindow { least: Some(least), ..window }
}

/// What is done while a dialog opens or closes.
#[derive(Clone, Copy, Debug, PartialEq, Eq, Structural)]
pub enum Step {
    /// The dialog counts as open from now on.
    Enter,
    /// The focus goes to the first control.
    FocusFirst,
    /// The dialog goes on top of the registry.
    Register,
    /// What this dialog does besides.
    Own(usize),
    /// The window is shown without becoming active.
    ShowQuietly,
    /// What had the focus gets it again.
    FocusAgain,
    /// The window and its controls are drawn.
    Redraw,
    /// The dialog leaves the registry.
    Unregister,
    /// The dialog no longer counts as open.
    Leave,
}

/// What is done when a dialog opens, in order. It counts as open first. A dialog that is not to come to the front is shown
/// last, and drawn at once so that a picture of it is complete.
pub open spec fn opening_of(own: bool, headless: bool) -> Seq<Step> {
    seq![Step::Enter, Step::FocusFirst, Step::Register] + (if own {
        seq![Step::Own(0)]
    } else {
        Seq::empty()
    }) + (if headless {
        seq![Step::ShowQuietly, Step::FocusAgain, Step::Redraw]
    } else {
        Seq::empty()
    })
}

/// What is done when a dialog opens, in order. `own` says whether this dialog does something
/// besides.
pub fn opening_steps(own: bool, headless: bool) -> (steps: Vec<Step>)
    ensures
        steps@ == opening_of(own, headless),
{
    let mut steps: Vec<Step> = vec![Step::Enter, Step::FocusFirst, Step::Register];
    if own {
        steps.push(Step::Own(0));
    }
    if headless {
        steps.push(Step::ShowQuietly);
        steps.push(Step::FocusAgain);
        steps.push(Step::Redraw);
    }
    assert(steps@ =~= opening_of(own, headless));
    steps
}

/// What is done when a dialog closes, in order: the `own` things that this dialog does, then it
/// leaves the registry, and last it no longer counts as open.
pub open spec fn closing_of(own: nat) -> Seq<Step> {
    Seq::new(own, |i: int| Step::Own(i as usize)).push(Step::Unregister).push(Step::Leave)
}

/// What is done when a dialog closes, in order.
pub fn closing_steps(own: usize) -> (steps: Vec<Step>)
    ensures
        steps@ == closing_of(own as nat),
{
    let mut steps: Vec<Step> = Vec::new();
    let mut i: usize = 0;
    while i < own
        invariant
            i <= own,
            steps@ =~= Seq::new(i as nat, |j: int| Step::Own(j as usize)),
        decreases own - i,
    {
        steps.push(Step::Own(i));
        i += 1;
    }
    steps.push(Step::Unregister);
    steps.push(Step::Leave);
    steps
}

/// How many dialogs are open after a step.
pub open spec fn depth_after(depth: int, step: Step) -> int {
    match step {
        Step::Enter => depth + 1,
        Step::Leave => depth - 1,
        _ => depth,
    }
}

/// How many dialogs are open after steps, one after the other.
pub open spec fn depth_after_all(depth: int, steps: Seq<Step>) -> int
    decreases steps.len(),
{
    if steps.len() == 0 {
        depth
    } else {
        depth_after(depth_after_all(depth, steps.drop_last()), steps.last())
    }
}

impl ModalDepth {
    /// A dialog goes one step on in its opening or closing.
    pub fn follow(&mut self, step: Step)
        requires
            0 <= depth_after(old(self).depth as int, step) <= u32::MAX,
        ensures
            final(self).depth == depth_after(old(self).depth as int, step),
    {
        match step {
            Step::Enter => self.enter(),
            Step::Leave => self.leave(),
            _ => {},
        }
    }
}

/// Whether steps open and close dialogs one over the other: each that opens closes again, and
/// nothing closes that was open before.
pub open spec fn are_nested(steps: Seq<Step>) -> bool {
    &&& depth_after_all(0, steps) == 0
    &&& forall|i: int| 0 <= i <= steps.len() ==> depth_after_all(0, #[trigger] steps.take(i)) >= 0
}

proof fn lemma_depth(depth: int, first: Seq<Step>, then: Seq<Step>)
    ensures
        depth_after_all(depth, first + then) == depth_after_all(depth_after_all(depth, first), then),
        depth_after_all(depth, then) == depth + depth_after_all(0, then),
    decreases then.len(),
{
    if then.len() == 0 {
        assert(first + then =~= first);
    } else {
        lemma_depth(depth, first, then.drop_last());
        assert((first + then).drop_last() =~= first + then.drop_last());
    }
}

proof fn lemma_quiet(depth: int, steps: Seq<Step>)
    requires
        forall|i: int|
            0 <= i < steps.len() ==> (#[trigger] steps[i]) != Step::Enter && steps[i] != Step::Leave,
    ensures
        depth_after_all(depth, steps) == depth,
    decreases steps.len(),
{
    if steps.len() > 0 {
        let before = steps.drop_last();
        assert forall|i: int| 0 <= i < before.len() implies (#[trigger] before[i]) != Step::Enter
            && before[i] != Step::Leave by {
            assert(before[i] == steps[i]);
        }
        lemma_quiet(depth, before);
        assert(steps.last() == steps[steps.len() - 1]);
    }
}

proof fn lemma_opening_enters(depth: int, own: bool, headless: bool, i: int)
    requires
        0 < i <= opening_of(own, headless).len(),
    ensures
        depth_after_all(depth, opening_of(own, headless).take(i)) == depth + 1,
{
    let all = opening_of(own, headless);
    let first = seq![Step::Enter];
    let then = all.subrange(1, i);
    assert(all.take(i) =~= first + then);
    lemma_depth(depth, first, then);
    assert(first.drop_last() =~= Seq::<Step>::empty());
    assert(depth_after_all(depth, first) == depth_after(
        depth_after_all(depth, first.drop_last()),
        first.last(),
    ));
    lemma_quiet(depth + 1, then);
}

proof fn lemma_closing_leaves(depth: int, own: nat, i: int)
    requires
        0 <= i <= closing_of(own).len(),
    ensures
        i < closing_of(own).len() ==> depth_after_all(depth, closing_of(own).take(i)) == depth,
        depth_after_all(depth, closing_of(own)) == depth - 1,
{
    let all = closing_of(own);
    if i < all.len() {
        lemma_quiet(depth, all.take(i));
    }
    lemma_quiet(depth, all.drop_last());
}

/// A dialog counts as open from its first step on until its last, and all the while in between,
/// whatever other dialogs open and close over it meanwhile; and once it has closed, as many count as
/// open as before. So none does where none did.
pub proof fn law_dialogs_count_while_they_are_shown(
    depth: nat,
    own: bool,
    headless: bool,
    meanwhile: Seq<Step>,
    n: nat,
    i: int,
)
    requires
        are_nested(meanwhile),
        0 <= i <= opening_of(own, headless).len() + meanwhile.len() + closing_of(n).len(),
    ensures
        ({
            let all = opening_of(own, headless) + meanwhile + closing_of(n);
            &&& 0 < i < all.len() ==> depth_after_all(depth as int, all.take(i)) > depth
            &&& depth_after_all(depth as int, all) == depth
        }),
{
    let opening = opening_of(own, headless);
    let closing = closing_of(n);
    let all = opening + meanwhile + closing;
    let d = depth as int;
    let a = opening.len() as int;
    let b = a + meanwhile.len() as int;
    lemma_opening_enters(d, own, headless, a);
    assert(opening.take(a) =~= opening);
    lemma_depth(d, opening, meanwhile);
    lemma_depth(d + 1, Seq::empty(), meanwhile);
    lemma_depth(d, opening + meanwhile, closing);
    lemma_closing_leaves(d + 1, n, 0);
    if 0 < i <= a {
        lemma_opening_enters(d, own, headless, i);
        assert(all.take(i) =~= opening.take(i));
    } else if a < i <= b {
        let part = meanwhile.take(i - a);
        assert(all.take(i) =~= opening + part);
        lemma_depth(d, opening, part);
        lemma_depth(d + 1, Seq::empty(), part);
    } else if b < i < all.len() {
        let part = closing.take(i - b);
        assert(all.take(i) =~= (opening + meanwhile) + part);
        lemma_depth(d, opening + meanwhile, part);
        lemma_closing_leaves(d + 1, n, i - b);
    }
}

/// Whatever a dialog does of its own, it is registered before that when it opens, and leaves the
/// registry after that when it closes: it can be observed all the while.
pub proof fn law_dialogs_are_registered_throughout(own: bool, headless: bool, n: nat)
    ensures
        opening_of(own, headless)[2] == Step::Register,
        forall|i: int|
            0 <= i < 3 ==> !(#[trigger] opening_of(own, headless)[i] is Own),
        closing_of(n)[n as int] == Step::Unregister,
        forall|i: int| 0 <= i < n ==> #[trigger] closing_of(n)[i] is Own,
{
}

} // verus!

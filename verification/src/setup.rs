//! The first-run screen: choosing a provider and typing its key.
use vstd::prelude::*;
use crate::secrets::Vendor;
use crate::text::{from_chars, push_char, to_chars, trim, trim_str};
use crate::tui::Key;

verus! {

/// Which half of the screen has the focus.
#[derive(Debug, Clone, Copy, PartialEq, Eq, Structural)]
pub enum Stage {
    /// Choosing a provider.
    Choosing,
    /// Typing the key.
    Entering,
}

/// What the user settled on.
#[derive(Debug, Clone)]
pub struct Setup {
    /// The provider they chose.
    pub vendor: Vendor,
    /// The key they entered, trimmed.
    pub key: String,
}

/// What a key press means for the screen.
#[derive(Debug)]
pub enum SetupStep {
    /// Keep going.
    Continue,
    /// The user backed out, which is a decision and not an error.
    Cancelled,
    /// The user settled on this.
    Done(Setup),
}

/// A control character: Unicode's general category `Cc`.
pub open spec fn is_control(c: char) -> bool {
    (c as u32) <= 0x1f || (0x7f <= (c as u32) && (c as u32) <= 0x9f)
}

/// Whether `c` is a control character.
pub fn char_is_control(c: char) -> (r: bool)
    ensures
        r == is_control(c),
{
    let n = c as u32;
    n <= 0x1f || (0x7f <= n && n <= 0x9f)
}

/// The state of the screen as values: the chosen row, the key typed so far,
/// and which half has the focus.
pub struct ScreenView {
    pub selected: nat,
    pub key: Seq<char>,
    pub stage: Stage,
}

/// What a step yields, as values: keep going, backed out, or the chosen row
/// and the trimmed key.
pub enum StepView {
    Continue,
    Cancelled,
    Done(nat, Seq<char>),
}

/// One key press on the screen with `count` providers. Escape backs out from
/// anywhere. While choosing, the arrows move within the list and Enter moves
/// on to the key. While typing, Backspace on an empty key goes back to the
/// list (choosing the wrong provider is the likeliest mistake, and it should
/// cost one key), otherwise it removes the last character; a printable
/// character is added; Enter settles on a key that is not blank. Every other
/// key changes nothing.
pub open spec fn setup_step(s: ScreenView, count: nat, key: Key) -> (ScreenView, StepView) {
    match (s.stage, key) {
        (_, Key::Esc) => (s, StepView::Cancelled),
        (Stage::Choosing, Key::Up) => (
            ScreenView { selected: if s.selected > 0 { (s.selected - 1) as nat } else { 0 }, ..s },
            StepView::Continue,
        ),
        (Stage::Choosing, Key::Down) => (
            ScreenView {
                selected: if s.selected + 1 < count { s.selected + 1 } else { (count - 1) as nat },
                ..s
            },
            StepView::Continue,
        ),
        (Stage::Choosing, Key::Enter) => (ScreenView { stage: Stage::Entering, ..s }, StepView::Continue),
        (Stage::Entering, Key::Backspace) => if s.key.len() == 0 {
            (ScreenView { stage: Stage::Choosing, ..s }, StepView::Continue)
        } else {
            (ScreenView { key: s.key.drop_last(), ..s }, StepView::Continue)
        },
        (Stage::Entering, Key::Char(c)) => if !is_control(c) {
            (ScreenView { key: s.key.push(c), ..s }, StepView::Continue)
        } else {
            (s, StepView::Continue)
        },
        (Stage::Entering, Key::Enter) => if trim(s.key).len() > 0 {
            (s, StepView::Done(s.selected, trim(s.key)))
        } else {
            (s, StepView::Continue)
        },
        _ => (s, StepView::Continue),
    }
}

/// The first-run screen.
#[derive(Debug)]
pub struct SetupScreen {
    pub selected: usize,
    pub key: String,
    pub stage: Stage,
}

impl SetupScreen {
    /// The screen as values.
    pub open spec fn view(&self) -> ScreenView {
        ScreenView { selected: self.selected as nat, key: self.key@, stage: self.stage }
    }

    /// The first provider chosen, no key, the list in focus.
    pub fn new() -> (r: Self)
        ensures
            r.view() == (ScreenView { selected: 0, key: seq![], stage: Stage::Choosing }),
    {
        SetupScreen { selected: 0, key: String::new(), stage: Stage::Choosing }
    }

    /// Takes one key press on a screen listing `vendors`.
    pub fn press(&mut self, vendors: &Vec<Vendor>, key: Key) -> (r: SetupStep)
        requires
            old(self).selected < vendors@.len(),
        ensures
            final(self).selected < vendors@.len(),
            ({
                let (next, step) = setup_step(old(self).view(), vendors@.len(), key);
                &&& final(self).view() == next
                &&& match step {
                    StepView::Continue => r is Continue,
                    StepView::Cancelled => r is Cancelled,
                    StepView::Done(i, k) => r matches SetupStep::Done(chosen) && chosen.vendor
                        == vendors@[i as int] && chosen.key@ == k,
                }
            }),
    {
        match (self.stage, key) {
            (_, Key::Esc) => SetupStep::Cancelled,
            (Stage::Choosing, Key::Up) => {
                if self.selected > 0 {
                    self.selected = self.selected - 1;
                }
                SetupStep::Continue
            },
            (Stage::Choosing, Key::Down) => {
                if self.selected < vendors.len() - 1 {
                    self.selected = self.selected + 1;
                } else {
                    self.selected = vendors.len() - 1;
                }
                SetupStep::Continue
            },
            (Stage::Choosing, Key::Enter) => {
                self.stage = Stage::Entering;
                SetupStep::Continue
            },
            (Stage::Entering, Key::Backspace) => {
                let mut v = to_chars(self.key.as_str());
                if v.len() == 0 {
                    self.stage = Stage::Choosing;
                } else {
                    v.pop();
                    self.key = from_chars(&v);
                }
                SetupStep::Continue
            },
            (Stage::Entering, Key::Char(c)) => {
                if !char_is_control(c) {
                    push_char(&mut self.key, c);
                }
                SetupStep::Continue
            },
            (Stage::Entering, Key::Enter) => {
                let trimmed = trim_str(self.key.as_str());
                if trimmed.as_str().is_empty() {
                    SetupStep::Continue
                } else {
                    SetupStep::Done(Setup { vendor: vendors[self.selected], key: trimmed })
                }
            },
            _ => SetupStep::Continue,
        }
    }
}

} // verus!

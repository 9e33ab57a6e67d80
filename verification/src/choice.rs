//! The rubric and the operator's selections over it.
//!
//! A rubric is a list of directives. Those that score (plus, minus, set) can
//! be selected; comment lines cannot. `ChoiceSelections` is the cursor over
//! the scoring directives, and turns what is selected into a mark and the
//! lines that justify it.

use vstd::prelude::*;
use vstd::string::StringExecFns;
use vstd::arithmetic::div_mod::{lemma_mod_add_multiples_vanish, lemma_mod_self_0, lemma_small_mod};
use crate::amount::{fixed_text, push_fixed, round_to_hundredths, Amount, Mark};

verus! {

/// One line of the rubric.
#[derive(Debug)]
pub enum Choice {
    Plus(Amount, String),
    Minus(Amount, String),
    SetTo(Amount, String),
    Comment(String),
}

/// What a `Choice` stands for: its kind, its amount in millionths of a mark
/// and its label.
pub ghost enum ChoiceView {
    Plus(nat, Seq<char>),
    Minus(nat, Seq<char>),
    SetTo(nat, Seq<char>),
    Comment(Seq<char>),
}

impl View for Choice {
    type V = ChoiceView;

    open spec fn view(&self) -> ChoiceView {
        match *self {
            Choice::Plus(amount, label) => ChoiceView::Plus(amount@, label@),
            Choice::Minus(amount, label) => ChoiceView::Minus(amount@, label@),
            Choice::SetTo(amount, label) => ChoiceView::SetTo(amount@, label@),
            Choice::Comment(label) => ChoiceView::Comment(label@),
        }
    }
}

impl Clone for Choice {
    fn clone(&self) -> (copy: Self)
        ensures
            copy == *self,
    {
        match self {
            Choice::Plus(amount, label) => Choice::Plus(*amount, label.clone()),
            Choice::Minus(amount, label) => Choice::Minus(*amount, label.clone()),
            Choice::SetTo(amount, label) => Choice::SetTo(*amount, label.clone()),
            Choice::Comment(label) => Choice::Comment(label.clone()),
        }
    }
}

impl Choice {
    /// Whether the directive scores, and so can be selected.
    pub fn is_selectable(&self) -> (selectable: bool)
        ensures
            selectable == !(self@ is Comment),
    {
        match self {
            Choice::Comment(_) => false,
            _ => true,
        }
    }
}

/// The rubric: its directives in the order in which they were written.
#[derive(Debug)]
pub struct Choices {
    pub choices: Vec<Choice>,
}

impl View for Choices {
    type V = Seq<ChoiceView>;

    open spec fn view(&self) -> Seq<ChoiceView> {
        Seq::new(self.choices@.len(), |i: int| self.choices@[i]@)
    }
}

impl Clone for Choices {
    fn clone(&self) -> (copy: Self)
        ensures
            copy@ == self@,
    {
        let mut choices: Vec<Choice> = Vec::new();
        let mut index: usize = 0;
        while index < self.choices.len()
            invariant
                index <= self.choices@.len(),
                choices@.len() == index,
                forall|i: int| 0 <= i < index ==> (#[trigger] choices@[i]) == self.choices@[i],
            decreases self.choices.len() - index,
        {
            choices.push(self.choices[index].clone());
            index = index + 1;
        }
        let copy = Choices { choices };
        assert(copy@ =~= self@);
        copy
    }
}

impl Default for Choices {
    fn default() -> (choices: Self)
        ensures
            choices@ == Seq::<ChoiceView>::empty(),
    {
        let choices = Choices { choices: Vec::new() };
        assert(choices@ =~= Seq::<ChoiceView>::empty());
        choices
    }
}

impl Choices {
    /// Whether the rubric holds a directive that scores.
    pub fn has_scoring_choice(&self) -> (scoring: bool)
        ensures
            scoring == exists|i: int| 0 <= i < self@.len() && !(#[trigger] self@[i] is Comment),
    {
        let mut index: usize = 0;
        while index < self.choices.len()
            invariant
                index <= self.choices@.len(),
                forall|i: int| 0 <= i < index ==> #[trigger] self@[i] is Comment,
            decreases self.choices.len() - index,
        {
            if self.choices[index].is_selectable() {
                assert(!(self@[index as int] is Comment));
                return true;
            }
            index = index + 1;
        }
        false
    }
}

/// One scoring directive with its selected flag and the place it has in the
/// rubric.
pub struct ChoiceSelection {
    choice: Choice,
    selected: bool,
    real_index: usize,
}

pub ghost struct SelectionView {
    pub choice: ChoiceView,
    pub selected: bool,
    pub real_index: nat,
}

impl View for ChoiceSelection {
    type V = SelectionView;

    closed spec fn view(&self) -> SelectionView {
        SelectionView {
            choice: self.choice@,
            selected: self.selected,
            real_index: self.real_index as nat,
        }
    }
}

impl ChoiceSelection {
    pub fn choice(&self) -> (choice: &Choice)
        ensures
            choice@ == self@.choice,
    {
        &self.choice
    }

    pub fn selected(&self) -> (selected: bool)
        ensures
            selected == self@.selected,
    {
        self.selected
    }

    /// Flips the selected flag.
    pub fn toggle(&mut self)
        ensures
            final(self)@ == (SelectionView { selected: !old(self)@.selected, ..old(self)@ }),
    {
        self.selected = !self.selected;
    }

    pub fn real_index(&self) -> (real_index: usize)
        ensures
            real_index == self@.real_index,
    {
        self.real_index
    }

    fn deselect(&mut self)
        ensures
            final(self)@ == (SelectionView { selected: false, ..old(self)@ }),
    {
        self.selected = false;
    }
}

/// The selections a fresh cursor holds over a rubric: one entry for each
/// scoring directive, in rubric order, none selected.
pub open spec fn fresh_selections(choices: Seq<ChoiceView>) -> Seq<SelectionView>
    decreases choices.len(),
{
    if choices.len() == 0 {
        Seq::empty()
    } else if choices.last() is Comment {
        fresh_selections(choices.drop_last())
    } else {
        fresh_selections(choices.drop_last()).push(
            SelectionView {
                choice: choices.last(),
                selected: false,
                real_index: (choices.len() - 1) as nat,
            },
        )
    }
}

/// The running total after the selected entries of `entries`, taken in order
/// from zero: plus adds, minus takes away, set overwrites.
pub open spec fn running_total(entries: Seq<SelectionView>) -> int
    decreases entries.len(),
{
    if entries.len() == 0 {
        0
    } else {
        let before = running_total(entries.drop_last());
        let last = entries.last();
        if !last.selected {
            before
        } else {
            match last.choice {
                ChoiceView::Plus(amount, _) => before + amount,
                ChoiceView::Minus(amount, _) => before - amount,
                ChoiceView::SetTo(amount, _) => amount as int,
                ChoiceView::Comment(_) => before,
            }
        }
    }
}

/// The mark that the selected entries give: the running total, with a
/// negative total raised to zero, rounded to hundredths.
pub open spec fn awarded_mark(entries: Seq<SelectionView>) -> nat {
    let total = running_total(entries);
    round_to_hundredths(
        if total < 0 {
            0
        } else {
            total as nat
        },
    )
}

/// The line that justifies one selected directive: its amount behind the
/// sign of its kind, a space, and its label.
pub open spec fn justification_line(choice: ChoiceView) -> Seq<char> {
    match choice {
        ChoiceView::Plus(amount, label) => seq!['+'] + fixed_text(amount) + seq![' '] + label,
        ChoiceView::Minus(amount, label) => seq!['-'] + fixed_text(amount) + seq![' '] + label,
        ChoiceView::SetTo(amount, label) => fixed_text(amount) + seq![' '] + label,
        ChoiceView::Comment(label) => label,
    }
}

/// The justification log: one line for each selected entry, in order.
pub open spec fn justification_lines(entries: Seq<SelectionView>) -> Seq<Seq<char>>
    decreases entries.len(),
{
    if entries.len() == 0 {
        Seq::empty()
    } else if entries.last().selected {
        justification_lines(entries.drop_last()).push(justification_line(entries.last().choice))
    } else {
        justification_lines(entries.drop_last())
    }
}

/// The entries after a toggle at `cursor`. The entry at the cursor flips.
/// Of the others, every set directive is deselected, and where the cursor's
/// own directive is a set, so is everything else.
pub open spec fn toggled(entries: Seq<SelectionView>, cursor: int) -> Seq<SelectionView> {
    Seq::new(
        entries.len(),
        |i: int|
            if i == cursor {
                SelectionView { selected: !entries[i].selected, ..entries[i] }
            } else if entries[cursor].choice is SetTo || entries[i].choice is SetTo {
                SelectionView { selected: false, ..entries[i] }
            } else {
                entries[i]
            },
    )
}

/// The views of `lines`, in order.
pub open spec fn line_views(lines: Seq<String>) -> Seq<Seq<char>> {
    Seq::new(lines.len(), |i: int| lines[i]@)
}

pub ghost struct SelectionsView {
    pub entries: Seq<SelectionView>,
    pub cursor: nat,
}

impl SelectionsView {
    /// No comment among the entries, rubric positions strictly rising, the
    /// cursor on an entry (or at zero over none), and a selected set directive
    /// alone among the selected.
    pub open spec fn wf(self) -> bool {
        &&& self.entries.len() == 0 ==> self.cursor == 0
        &&& self.entries.len() > 0 ==> self.cursor < self.entries.len()
        &&& forall|i: int| 0 <= i < self.entries.len() ==> !(#[trigger] self.entries[i].choice is Comment)
        &&& forall|i: int, j: int|
            0 <= i < j < self.entries.len() ==> (#[trigger] self.entries[i]).real_index < (
            #[trigger] self.entries[j]).real_index
        &&& forall|i: int, j: int|
            0 <= i < self.entries.len() && 0 <= j < self.entries.len() && i != j && (
            #[trigger] self.entries[i]).selected && self.entries[i].choice is SetTo ==> !(
            #[trigger] self.entries[j]).selected
    }
}

/// The cursor over the scoring directives of a rubric.
pub struct ChoiceSelections {
    selections: Vec<ChoiceSelection>,
    cursor: usize,
}

impl View for ChoiceSelections {
    type V = SelectionsView;

    closed spec fn view(&self) -> SelectionsView {
        SelectionsView {
            entries: Seq::new(self.selections@.len(), |i: int| self.selections@[i]@),
            cursor: self.cursor as nat,
        }
    }
}

impl Default for ChoiceSelections {
    fn default() -> (selections: Self)
        ensures
            selections@.entries == Seq::<SelectionView>::empty(),
            selections@.cursor == 0,
            selections@.wf(),
    {
        let selections = ChoiceSelections { selections: Vec::new(), cursor: 0 };
        assert(selections@.entries =~= Seq::<SelectionView>::empty());
        selections
    }
}

impl ChoiceSelections {
    /// A fresh cursor over `choices`: its scoring directives in order, none
    /// selected, the cursor on the first.
    pub fn new(choices: &Choices) -> (selections: Self)
        ensures
            selections@.entries == fresh_selections(choices@),
            selections@.cursor == 0,
            selections@.wf(),
    {
        let mut entries: Vec<ChoiceSelection> = Vec::new();
        let mut index: usize = 0;
        let ghost all = choices@;
        assert(all.take(0) =~= Seq::<ChoiceView>::empty());
        while index < choices.choices.len()
            invariant
                index <= choices.choices.len(),
                all == choices@,
                all.len() == choices.choices@.len(),
                Seq::new(entries@.len(), |i: int| entries@[i]@) == fresh_selections(
                    all.take(index as int),
                ),
                forall|i: int| 0 <= i < entries@.len() ==> (#[trigger] entries@[i]).real_index < index,
                forall|i: int| 0 <= i < entries@.len() ==> !(#[trigger] entries@[i]).selected,
                forall|i: int| 0 <= i < entries@.len() ==> !((#[trigger] entries@[i]).choice@ is Comment),
                forall|i: int, j: int|
                    0 <= i < j < entries@.len() ==> (#[trigger] entries@[i]).real_index < (
                    #[trigger] entries@[j]).real_index,
            decreases choices.choices.len() - index,
        {
            let ghost before = Seq::new(entries@.len(), |i: int| entries@[i]@);
            proof {
                assert(all.take(index + 1).drop_last() =~= all.take(index as int));
                assert(all.take(index + 1).last() == all[index as int]);
                assert(all[index as int] == choices.choices@[index as int]@);
            }
            if choices.choices[index].is_selectable() {
                entries.push(
                    ChoiceSelection {
                        choice: choices.choices[index].clone(),
                        selected: false,
                        real_index: index,
                    },
                );
                proof {
                    assert(Seq::new(entries@.len(), |i: int| entries@[i]@) =~= before.push(
                        entries@.last()@,
                    ));
                }
            }
            index = index + 1;
        }
        proof {
            assert(all.take(index as int) =~= all);
        }
        ChoiceSelections { selections: entries, cursor: 0 }
    }

    pub fn selections(&self) -> (selections: &[ChoiceSelection])
        ensures
            selections@.len() == self@.entries.len(),
            forall|i: int| 0 <= i < selections@.len() ==> (#[trigger] selections@[i])@ == self@.entries[i],
    {
        self.selections.as_slice()
    }

    /// The cursor's place among the scoring directives.
    pub fn cursor(&self) -> (cursor: usize)
        ensures
            cursor == self@.cursor,
    {
        self.cursor
    }

    /// The cursor's place in the rubric itself.
    pub fn real_cursor(&self) -> (real_cursor: usize)
        requires
            self@.cursor < self@.entries.len(),
        ensures
            real_cursor == self@.entries[self@.cursor as int].real_index,
    {
        self.selections[self.cursor].real_index
    }

    /// Toggles the directive at the cursor. Over no directives nothing
    /// changes.
    pub fn toggle_selection(&mut self)
        requires
            old(self)@.wf(),
        ensures
            final(self)@.wf(),
            final(self)@.cursor == old(self)@.cursor,
            old(self)@.entries.len() == 0 ==> final(self)@ == old(self)@,
            old(self)@.entries.len() > 0 ==> final(self)@.entries == toggled(
                old(self)@.entries,
                old(self)@.cursor as int,
            ),
    {
        let count: usize = self.selections.len();
        if count == 0 {
            return ;
        }
        let ghost start = self@.entries;
        let cursor: usize = self.cursor;
        let clears_all: bool = match self.selections[cursor].choice {
            Choice::SetTo(_, _) => true,
            _ => false,
        };
        let mut index: usize = 0;
        while index < count
            invariant
                index <= count,
                count == self.selections@.len(),
                count == start.len(),
                cursor == self.cursor,
                cursor < count,
                clears_all == (start[cursor as int].choice is SetTo),
                forall|i: int|
                    0 <= i < index ==> (#[trigger] self.selections@[i])@ == if i == cursor {
                        start[i]
                    } else {
                        toggled(start, cursor as int)[i]
                    },
                forall|i: int| index <= i < count ==> (#[trigger] self.selections@[i])@ == start[i],
            decreases count - index,
        {
            let clears: bool = index != cursor && (clears_all || match self.selections[index].choice {
                Choice::SetTo(_, _) => true,
                _ => false,
            });
            if clears {
                self.selections[index].deselect();
            }
            index = index + 1;
        }
        self.selections[cursor].toggle();
        proof {
            assert(self@.entries =~= toggled(start, cursor as int));
        }
    }

    /// Moves the cursor to the next directive, from the last to the first.
    pub fn cursor_next(&mut self)
        requires
            old(self)@.wf(),
        ensures
            final(self)@.wf(),
            final(self)@.entries == old(self)@.entries,
            old(self)@.entries.len() == 0 ==> final(self)@.cursor == 0,
            old(self)@.entries.len() > 0 ==> final(self)@.cursor == (old(self)@.cursor as int + 1)
                % (old(self)@.entries.len() as int),
    {
        let count: usize = self.selections.len();
        if count > 0 {
            if self.cursor + 1 == count {
                proof {
                    lemma_mod_self_0(count as int);
                }
                self.cursor = 0;
            } else {
                proof {
                    lemma_small_mod((self.cursor + 1) as nat, count as nat);
                }
                self.cursor = self.cursor + 1;
            }
        }
    }

    /// Moves the cursor to the directive before, from the first to the last.
    pub fn cursor_prev(&mut self)
        requires
            old(self)@.wf(),
        ensures
            final(self)@.wf(),
            final(self)@.entries == old(self)@.entries,
            old(self)@.entries.len() == 0 ==> final(self)@.cursor == 0,
            old(self)@.entries.len() > 0 ==> final(self)@.cursor == (old(self)@.cursor as int + old(self)@.entries.len() - 1) % (old(self)@.entries.len() as int),
    {
        let count: usize = self.selections.len();
        if count > 0 {
            proof {
                lemma_mod_add_multiples_vanish(self.cursor - 1, count as int);
            }
            if self.cursor == 0 {
                proof {
                    lemma_small_mod((count - 1) as nat, count as nat);
                }
                self.cursor = count - 1;
            } else {
                proof {
                    lemma_small_mod((self.cursor - 1) as nat, count as nat);
                }
                self.cursor = self.cursor - 1;
            }
        }
    }

    /// Puts the cursor on the directive at `new_cursor` if there is one, and
    /// says whether it did.
    pub fn try_cursor_set(&mut self, new_cursor: usize) -> (moved: bool)
        ensures
            moved == (new_cursor < old(self)@.entries.len()),
            final(self)@.entries == old(self)@.entries,
            moved ==> final(self)@.cursor == new_cursor,
            !moved ==> final(self)@.cursor == old(self)@.cursor,
            old(self)@.wf() ==> final(self)@.wf(),
    {
        if new_cursor < self.selections.len() {
            self.cursor = new_cursor;
            true
        } else {
            false
        }
    }

    /// The first directive that stands at `real_index` in the rubric, with
    /// its place among the scoring directives.
    pub fn from_real_index(&self, real_index: usize) -> (found: Option<(usize, &ChoiceSelection)>)
        ensures
            match found {
                Some((index, selection)) => {
                    &&& index < self@.entries.len()
                    &&& selection@ == self@.entries[index as int]
                    &&& self@.entries[index as int].real_index == real_index
                    &&& forall|i: int| 0 <= i < index ==> (#[trigger] self@.entries[i]).real_index != real_index
                },
                None => forall|i: int|
                    0 <= i < self@.entries.len() ==> (#[trigger] self@.entries[i]).real_index != real_index,
            },
    {
        let mut index: usize = 0;
        while index < self.selections.len()
            invariant
                index <= self.selections@.len(),
                forall|i: int| 0 <= i < index ==> (#[trigger] self@.entries[i]).real_index != real_index,
            decreases self.selections.len() - index,
        {
            if self.selections[index].real_index == real_index {
                return Some((index, &self.selections[index]));
            }
            index = index + 1;
        }
        None
    }

    /// The mark that the selected directives give.
    pub fn mark(&self) -> (mark: Mark)
        ensures
            mark@ == awarded_mark(self@.entries),
    {
        let ghost entries = self@.entries;
        let mut gained: u128 = 0;
        let mut lost: u128 = 0;
        let mut index: usize = 0;
        assert(entries.take(0) =~= Seq::<SelectionView>::empty());
        while index < self.selections.len()
            invariant
                index <= self.selections@.len(),
                entries == self@.entries,
                gained - lost == running_total(entries.take(index as int)),
                gained <= index * 0xFFFF_FFFF_FFFF_FFFF,
                lost <= index * 0xFFFF_FFFF_FFFF_FFFF,
            decreases self.selections.len() - index,
        {
            proof {
                assert(entries.take(index + 1).drop_last() =~= entries.take(index as int));
                assert(entries.take(index + 1).last() == self.selections@[index as int]@);
            }
            if self.selections[index].selected {
                match &self.selections[index].choice {
                    Choice::Plus(amount, _) => {
                        gained = gained + amount.units() as u128;
                    },
                    Choice::Minus(amount, _) => {
                        lost = lost + amount.units() as u128;
                    },
                    Choice::SetTo(amount, _) => {
                        gained = amount.units() as u128;
                        lost = 0;
                    },
                    Choice::Comment(_) => {},
                }
            }
            index = index + 1;
        }
        proof {
            assert(entries.take(index as int) =~= entries);
        }
        let total: u128 = if gained >= lost {
            gained - lost
        } else {
            0
        };
        Mark::rounded(total)
    }

    /// The justification log: one line for each selected directive, in rubric
    /// order.
    pub fn justification(&self) -> (lines: Vec<String>)
        ensures
            line_views(lines@) == justification_lines(self@.entries),
    {
        let ghost entries = self@.entries;
        let mut lines: Vec<String> = Vec::new();
        let mut index: usize = 0;
        assert(entries.take(0) =~= Seq::<SelectionView>::empty());
        assert(line_views(lines@) =~= Seq::<Seq<char>>::empty());
        while index < self.selections.len()
            invariant
                index <= self.selections@.len(),
                entries == self@.entries,
                line_views(lines@) == justification_lines(entries.take(index as int)),
            decreases self.selections.len() - index,
        {
            let ghost before = line_views(lines@);
            proof {
                assert(entries.take(index + 1).drop_last() =~= entries.take(index as int));
                assert(entries.take(index + 1).last() == self.selections@[index as int]@);
            }
            if self.selections[index].selected {
                let line = line_for(&self.selections[index].choice);
                lines.push(line);
                proof {
                    assert(line_views(lines@) =~= before.push(
                        justification_line(self.selections@[index as int]@.choice),
                    ));
                }
            }
            index = index + 1;
        }
        proof {
            assert(entries.take(index as int) =~= entries);
        }
        lines
    }
}

/// The line that justifies `choice`.
pub fn line_for(choice: &Choice) -> (line: String)
    ensures
        line@ == justification_line(choice@),
{
    let mut line = String::new();
    match choice {
        Choice::Plus(amount, label) => {
            line.push('+');
            push_fixed(&mut line, amount.units() as u128);
            line.push(' ');
            line.append(label.as_str());
            proof {
                assert(line@ =~= justification_line(choice@));
            }
        },
        Choice::Minus(amount, label) => {
            line.push('-');
            push_fixed(&mut line, amount.units() as u128);
            line.push(' ');
            line.append(label.as_str());
            proof {
                assert(line@ =~= justification_line(choice@));
            }
        },
        Choice::SetTo(amount, label) => {
            push_fixed(&mut line, amount.units() as u128);
            line.push(' ');
            line.append(label.as_str());
            proof {
                assert(line@ =~= justification_line(choice@));
            }
        },
        Choice::Comment(label) => {
            line.append(label.as_str());
            proof {
                assert(line@ =~= justification_line(choice@));
            }
        },
    }
    line
}

/// With nothing selected the running total is zero.
pub proof fn lemma_nothing_selected(entries: Seq<SelectionView>)
    requires
        forall|i: int| 0 <= i < entries.len() ==> !(#[trigger] entries[i]).selected,
    ensures
        running_total(entries) == 0,
        justification_lines(entries).len() == 0,
    decreases entries.len(),
{
    if entries.len() > 0 {
        assert(!entries[entries.len() - 1].selected);
        assert forall|i: int| 0 <= i < entries.drop_last().len() implies !(
        #[trigger] entries.drop_last()[i]).selected by {
            assert(entries.drop_last()[i] == entries[i]);
        }
        lemma_nothing_selected(entries.drop_last());
    }
}

/// A selected set directive decides the mark alone: where it is the only
/// entry selected, the running total is its amount.
pub proof fn lemma_selected_set_decides(entries: Seq<SelectionView>, at: int)
    requires
        0 <= at < entries.len(),
        entries[at].selected,
        entries[at].choice is SetTo,
        forall|i: int| 0 <= i < entries.len() && i != at ==> !(#[trigger] entries[i]).selected,
    ensures
        running_total(entries) == entries[at].choice->SetTo_0,
        awarded_mark(entries) == round_to_hundredths(entries[at].choice->SetTo_0),
    decreases entries.len(),
{
    let front = entries.drop_last();
    if at == entries.len() - 1 {
    } else {
        assert(!entries[entries.len() - 1].selected);
        assert(front[at] == entries[at]);
        assert forall|i: int| 0 <= i < front.len() && i != at implies !(#[trigger] front[i]).selected by {
            assert(front[i] == entries[i]);
        }
        lemma_selected_set_decides(front, at);
    }
}

/// A total that is not above zero gives the mark zero.
pub proof fn lemma_negative_total_clamps(entries: Seq<SelectionView>)
    requires
        running_total(entries) <= 0,
    ensures
        awarded_mark(entries) == 0,
{
}

/// After a toggle, a selected set directive stands alone: a toggle on a
/// plus or a minus leaves no set directive selected, and a toggle on a set
/// directive leaves nothing else selected.
pub proof fn lemma_toggle_excludes(entries: Seq<SelectionView>, cursor: int)
    requires
        0 <= cursor < entries.len(),
    ensures
        toggled(entries, cursor).len() == entries.len(),
        toggled(entries, cursor)[cursor].selected == !entries[cursor].selected,
        forall|i: int|
            0 <= i < entries.len() && i != cursor && entries[i].choice is SetTo ==> !(
            #[trigger] toggled(entries, cursor)[i]).selected,
        entries[cursor].choice is SetTo ==> forall|i: int|
            0 <= i < entries.len() && i != cursor ==> !(#[trigger] toggled(entries, cursor)[i]).selected,
        forall|i: int|
            0 <= i < entries.len() ==> (#[trigger] toggled(entries, cursor)[i]).choice
                == entries[i].choice && toggled(entries, cursor)[i].real_index
                == entries[i].real_index,
{
}

} // verus!

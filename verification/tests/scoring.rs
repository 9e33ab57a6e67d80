use flymark::amount::{Amount, Mark, FRACTION_PLACES, UNITS_PER_HUNDREDTH, UNITS_PER_MARK};
use flymark::choice::{line_for, Choice, ChoiceSelections, Choices};

fn marks(whole: u64) -> Amount {
    Amount::from_units(whole * 1_000_000)
}

fn rubric() -> Choices {
    Choices {
        choices: vec![
            Choice::Plus(marks(5), "a".to_string()),
            Choice::Minus(marks(2), "b".to_string()),
            Choice::SetTo(marks(10), "c".to_string()),
        ],
    }
}

fn rubric_with_comments() -> Choices {
    Choices {
        choices: vec![
            Choice::Comment("Style".to_string()),
            Choice::Plus(Amount::from_units(1_500_000), "tidy".to_string()),
            Choice::Comment("".to_string()),
            Choice::Minus(Amount::from_units(250_000), "late".to_string()),
            Choice::SetTo(marks(0), "did not compile".to_string()),
            Choice::Comment("end".to_string()),
        ],
    }
}

#[test]
fn only_set_selected_gives_its_amount() {
    let mut selections = ChoiceSelections::new(&rubric());
    assert!(selections.try_cursor_set(2));
    selections.toggle_selection();
    assert_eq!(selections.mark(), Mark::from_units(10_000_000));
    assert_eq!(selections.mark().to_text(), "10");
    assert_eq!(selections.justification(), vec!["10 c".to_string()]);
}

#[test]
fn plus_and_minus_selected_give_their_sum() {
    let mut selections = ChoiceSelections::new(&rubric());
    selections.toggle_selection();
    selections.cursor_next();
    selections.toggle_selection();
    assert_eq!(selections.mark(), Mark::from_units(3_000_000));
    assert_eq!(
        selections.justification(),
        vec!["+5 a".to_string(), "-2 b".to_string()]
    );
}

#[test]
fn selecting_plus_after_set_deselects_set() {
    let mut selections = ChoiceSelections::new(&rubric());
    assert!(selections.try_cursor_set(2));
    selections.toggle_selection();
    assert!(selections.try_cursor_set(0));
    selections.toggle_selection();
    assert!(selections.selections()[0].selected());
    assert!(!selections.selections()[2].selected());
    assert_eq!(selections.mark(), Mark::from_units(5_000_000));
}

#[test]
fn selecting_set_deselects_everything_else() {
    let mut selections = ChoiceSelections::new(&rubric());
    selections.toggle_selection();
    selections.cursor_next();
    selections.toggle_selection();
    selections.cursor_next();
    selections.toggle_selection();
    assert!(!selections.selections()[0].selected());
    assert!(!selections.selections()[1].selected());
    assert!(selections.selections()[2].selected());
    assert_eq!(selections.mark(), Mark::from_units(10_000_000));
}

#[test]
fn toggling_a_selected_set_turns_it_off() {
    let mut selections = ChoiceSelections::new(&rubric());
    assert!(selections.try_cursor_set(2));
    selections.toggle_selection();
    selections.toggle_selection();
    assert!(!selections.selections()[2].selected());
    assert_eq!(selections.mark(), Mark::from_units(0));
    assert!(selections.justification().is_empty());
}

#[test]
fn negative_total_clamps_to_zero() {
    let mut selections = ChoiceSelections::new(&rubric());
    selections.cursor_next();
    selections.toggle_selection();
    assert_eq!(selections.mark(), Mark::from_units(0));
    assert_eq!(selections.mark().to_text(), "0");
}

#[test]
fn nothing_selected_gives_zero_and_no_lines() {
    let selections = ChoiceSelections::new(&rubric());
    assert_eq!(selections.mark(), Mark::from_units(0));
    assert!(selections.justification().is_empty());
}

#[test]
fn mark_is_rounded_to_hundredths_with_ties_up() {
    let rubric = Choices {
        choices: vec![
            Choice::Plus(Amount::from_units(1_125_000), "x".to_string()),
            Choice::Plus(Amount::from_units(4_999), "y".to_string()),
            Choice::Minus(Amount::from_units(1), "z".to_string()),
        ],
    };
    let mut selections = ChoiceSelections::new(&rubric);
    selections.toggle_selection();
    // 1.125 is halfway between 1.12 and 1.13
    assert_eq!(selections.mark(), Mark::from_units(1_130_000));
    selections.cursor_prev();
    selections.toggle_selection();
    // 1.124999 rounds down
    assert_eq!(selections.mark(), Mark::from_units(1_120_000));
    selections.cursor_prev();
    selections.toggle_selection();
    // 1.129998 rounds up
    assert_eq!(selections.mark(), Mark::from_units(1_130_000));
    assert_eq!(selections.mark().to_text(), "1.13");
}

#[test]
fn rounding_of_a_given_total() {
    assert_eq!(Mark::rounded(0), Mark::from_units(0));
    assert_eq!(Mark::rounded(4_999), Mark::from_units(0));
    assert_eq!(Mark::rounded(5_000), Mark::from_units(10_000));
    assert_eq!(Mark::rounded(14_999), Mark::from_units(10_000));
    assert_eq!(Mark::rounded(3_000_000), Mark::from_units(3_000_000));
    assert_eq!(Mark::rounded(3_000_000).units(), 3_000_000);
}

#[test]
fn constants_of_the_fixed_point() {
    assert_eq!(UNITS_PER_MARK, 1_000_000);
    assert_eq!(UNITS_PER_HUNDREDTH, 10_000);
    assert_eq!(FRACTION_PLACES, 6);
}

#[test]
fn amounts_are_written_without_trailing_zeros() {
    assert_eq!(Amount::from_units(0).to_text(), "0");
    assert_eq!(Amount::from_units(5_000_000).to_text(), "5");
    assert_eq!(Amount::from_units(2_500_000).to_text(), "2.5");
    assert_eq!(Amount::from_units(125_000).to_text(), "0.125");
    assert_eq!(Amount::from_units(1).to_text(), "0.000001");
    assert_eq!(Amount::from_units(10_050_000).to_text(), "10.05");
    assert_eq!(Amount::from_units(1_000_001).to_text(), "1.000001");
    assert_eq!(Amount::from_units(100_000_000).to_text(), "100");
    assert_eq!(Amount::from_units(u64::MAX).to_text(), "18446744073709.551615");
    assert_eq!(Amount::from_units(7).units(), 7);
    assert_eq!(Mark::from_units(u128::MAX).to_text(), "340282366920938463463374607431768.211455");
}

#[test]
fn justification_lines_carry_sign_amount_and_label() {
    assert_eq!(line_for(&Choice::Plus(Amount::from_units(2_500_000), "good tests".to_string())), "+2.5 good tests");
    assert_eq!(line_for(&Choice::Minus(marks(1), "late".to_string())), "-1 late");
    assert_eq!(line_for(&Choice::SetTo(marks(0), "nothing".to_string())), "0 nothing");
    assert_eq!(line_for(&Choice::Comment("note".to_string())), "note");
}

#[test]
fn comments_are_not_selectable() {
    let rubric = rubric_with_comments();
    let selections = ChoiceSelections::new(&rubric);
    assert_eq!(selections.selections().len(), 3);
    assert_eq!(selections.selections()[0].real_index(), 1);
    assert_eq!(selections.selections()[1].real_index(), 3);
    assert_eq!(selections.selections()[2].real_index(), 4);
    assert!(selections.selections().iter().all(|s| !s.selected()));
    assert!(selections.selections().iter().all(|s| s.choice().is_selectable()));
    assert!(!rubric.choices[0].is_selectable());
    assert_eq!(selections.cursor(), 0);
    assert_eq!(selections.real_cursor(), 1);
}

#[test]
fn cursor_wraps_around_both_ways() {
    let mut selections = ChoiceSelections::new(&rubric_with_comments());
    selections.cursor_prev();
    assert_eq!(selections.cursor(), 2);
    assert_eq!(selections.real_cursor(), 4);
    selections.cursor_next();
    assert_eq!(selections.cursor(), 0);
    selections.cursor_next();
    assert_eq!(selections.cursor(), 1);
    assert_eq!(selections.real_cursor(), 3);
    selections.cursor_next();
    selections.cursor_next();
    assert_eq!(selections.cursor(), 0);
}

#[test]
fn try_cursor_set_rejects_indices_out_of_range() {
    let mut selections = ChoiceSelections::new(&rubric_with_comments());
    assert!(selections.try_cursor_set(1));
    assert_eq!(selections.cursor(), 1);
    assert!(!selections.try_cursor_set(3));
    assert_eq!(selections.cursor(), 1);
    assert!(!selections.try_cursor_set(usize::MAX));
    assert_eq!(selections.cursor(), 1);
    assert!(selections.try_cursor_set(2));
    assert_eq!(selections.cursor(), 2);
}

#[test]
fn from_real_index_finds_scoring_lines_only() {
    let selections = ChoiceSelections::new(&rubric_with_comments());
    let (index, selection) = selections.from_real_index(3).expect("line 3 scores");
    assert_eq!(index, 1);
    assert_eq!(selection.real_index(), 3);
    assert!(selections.from_real_index(0).is_none());
    assert!(selections.from_real_index(2).is_none());
    assert!(selections.from_real_index(6).is_none());
}

#[test]
fn empty_selections_stay_put() {
    let mut selections = ChoiceSelections::new(&Choices::default());
    selections.cursor_next();
    selections.cursor_prev();
    selections.toggle_selection();
    assert_eq!(selections.cursor(), 0);
    assert!(!selections.try_cursor_set(0));
    assert!(selections.selections().is_empty());
    assert_eq!(selections.mark(), Mark::from_units(0));
    let fresh = ChoiceSelections::default();
    assert!(fresh.selections().is_empty());
}

#[test]
fn choices_can_be_cloned() {
    let rubric = rubric_with_comments();
    let copy = rubric.clone();
    assert_eq!(copy.choices.len(), 6);
    assert_eq!(line_for(&copy.choices[1]), "+1.5 tidy");
    assert_eq!(line_for(&copy.choices[1].clone()), "+1.5 tidy");
}

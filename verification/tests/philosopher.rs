use dining_philosophers::philosopher::{Order, Philosopher};
use dining_philosophers::script::{agenda, Action, Event, Stage, FIRST_FORK_PAUSE_MS, MEAL_MS};

#[test]
fn new_philosopher_keeps_what_it_was_given() {
    let guest = Philosopher::new("Judith Butler", 0, 1);
    assert_eq!(guest.name(), "Judith Butler");
    assert_eq!(guest.left(), 0);
    assert_eq!(guest.right(), 1);
    assert_eq!(guest.order(), Order::LeftFirst);
}

#[test]
fn new_philosopher_takes_the_left_fork_first() {
    let guest = Philosopher::new("Karl Marx", 2, 3);
    assert_eq!(guest.first(), 2);
    assert_eq!(guest.second(), 3);
    let wrapped = Philosopher::new("Michel Foucault", 4, 0);
    assert_eq!(wrapped.first(), 4);
    assert_eq!(wrapped.second(), 0);
}

#[test]
fn right_first_swaps_the_two_forks() {
    let guest = Philosopher::with_order("Michel Foucault", 4, 0, Order::RightFirst);
    assert_eq!(guest.name(), "Michel Foucault");
    assert_eq!(guest.left(), 4);
    assert_eq!(guest.right(), 0);
    assert_eq!(guest.order(), Order::RightFirst);
    assert_eq!(guest.first(), 0);
    assert_eq!(guest.second(), 4);
    let same = Philosopher::with_order("Emma Goldman", 3, 4, Order::LeftFirst);
    assert_eq!(same.first(), 3);
    assert_eq!(same.second(), 4);
}

#[test]
fn lowest_first_picks_the_lower_index() {
    assert_eq!(Order::lowest_first(0, 1), Order::LeftFirst);
    assert_eq!(Order::lowest_first(4, 0), Order::RightFirst);
    assert_eq!(Order::lowest_first(3, 3), Order::LeftFirst);
    let guest = Philosopher::with_order("x", 4, 0, Order::lowest_first(4, 0));
    assert!(guest.first() < guest.second());
}

#[test]
fn fits_needs_two_different_forks_on_the_table() {
    assert!(Philosopher::new("a", 0, 1).fits(2));
    assert!(Philosopher::new("a", 4, 0).fits(5));
    assert!(!Philosopher::new("a", 0, 2).fits(2));
    assert!(!Philosopher::new("a", 2, 0).fits(2));
    assert!(!Philosopher::new("a", 1, 1).fits(2));
    assert!(!Philosopher::new("a", 0, 1).fits(0));
    assert!(!Philosopher::new("a", 0, 1).fits(1));
}

#[test]
fn announce_is_the_name_and_the_fixed_words() {
    let guest = Philosopher::new("Gilles Deleuze", 1, 2);
    assert_eq!(
        guest.announce(Event::AcquiredFirst),
        "Gilles Deleuze has picked up the left fork"
    );
    assert_eq!(guest.announce(Event::Entered), "Gilles Deleuze is eating.");
    assert_eq!(guest.announce(Event::Exited), "Gilles Deleuze is done eating.");
    // The name is untouched by announcing.
    assert_eq!(guest.name(), "Gilles Deleuze");
}

#[test]
fn announce_uses_the_same_words_whichever_fork_comes_first() {
    let guest = Philosopher::with_order("Michel Foucault", 4, 0, Order::RightFirst);
    assert_eq!(
        guest.announce(Event::AcquiredFirst),
        "Michel Foucault has picked up the left fork"
    );
    assert_eq!(guest.announce(Event::Entered), "Michel Foucault is eating.");
    assert_eq!(guest.announce(Event::Exited), "Michel Foucault is done eating.");
}

#[test]
fn announce_with_an_empty_name_is_just_the_words() {
    let guest = Philosopher::new("", 0, 1);
    assert_eq!(guest.announce(Event::Entered), " is eating.");
    assert_eq!(Event::Entered.wording(), " is eating.");
    assert_eq!(Event::AcquiredFirst.wording(), " has picked up the left fork");
    assert_eq!(Event::Exited.wording(), " is done eating.");
}

#[test]
fn the_two_pauses_are_what_they_are() {
    assert_eq!(FIRST_FORK_PAUSE_MS, 150);
    assert_eq!(MEAL_MS, 1000);
}

#[test]
fn agenda_with_the_first_fork_is_to_say_so_and_pause() {
    assert_eq!(
        agenda(Stage::HoldingFirst),
        vec![Action::Emit(Event::AcquiredFirst), Action::Hold(150)]
    );
}

#[test]
fn agenda_with_both_forks_is_the_meal() {
    assert_eq!(
        agenda(Stage::HoldingBoth),
        vec![Action::Emit(Event::Entered), Action::Hold(1000), Action::Emit(Event::Exited)]
    );
}

#[test]
fn agenda_is_empty_away_from_the_forks() {
    assert_eq!(agenda(Stage::Idle), vec![]);
    assert_eq!(agenda(Stage::Done), vec![]);
    assert_eq!(agenda(Stage::Failed), vec![]);
}

#[test]
fn only_done_and_failed_are_over() {
    assert!(!Stage::Idle.over());
    assert!(!Stage::HoldingFirst.over());
    assert!(!Stage::HoldingBoth.over());
    assert!(Stage::Done.over());
    assert!(Stage::Failed.over());
}

//! A philosopher: a name and the two forks it eats with.

use vstd::prelude::*;
use crate::script::Event;

verus! {

/// Which of its two forks a philosopher takes first.
#[derive(Clone, Copy, Debug, PartialEq, Eq, Hash, Structural)]
pub enum Order {
    /// The left fork, then the right one.
    LeftFirst,
    /// The right fork, then the left one.
    RightFirst,
}

impl Order {
    /// The order that takes the fork with the lower index first.
    pub open spec fn lowest_first_of(left: usize, right: usize) -> Order {
        if left <= right {
            Order::LeftFirst
        } else {
            Order::RightFirst
        }
    }

    /// The order in which a philosopher between `left` and `right` takes the
    /// fork with the lower index first.
    pub fn lowest_first(left: usize, right: usize) -> (order: Order)
        ensures
            order == Order::lowest_first_of(left, right),
    {
        if left <= right {
            Order::LeftFirst
        } else {
            Order::RightFirst
        }
    }
}

/// The model of a philosopher.
pub struct PhilosopherView {
    /// The name, which tells guests apart for a reader and decides nothing.
    pub name: Seq<char>,
    /// The index of the fork to the left.
    pub left: usize,
    /// The index of the fork to the right.
    pub right: usize,
    /// Which of the two is taken first.
    pub order: Order,
}

impl PhilosopherView {
    /// The fork taken first.
    pub open spec fn first(self) -> usize {
        match self.order {
            Order::LeftFirst => self.left,
            Order::RightFirst => self.right,
        }
    }

    /// The fork taken second.
    pub open spec fn second(self) -> usize {
        match self.order {
            Order::LeftFirst => self.right,
            Order::RightFirst => self.left,
        }
    }

    /// Both forks are forks of a table with `forks` forks, and they are two.
    pub open spec fn fits(self, forks: nat) -> bool {
        self.left < forks && self.right < forks && self.left != self.right
    }
}

/// A philosopher, fixed once made.
#[derive(Clone, Debug)]
pub struct Philosopher {
    name: String,
    left: usize,
    right: usize,
    order: Order,
}

impl View for Philosopher {
    type V = PhilosopherView;

    closed spec fn view(&self) -> PhilosopherView {
        PhilosopherView {
            name: self.name@,
            left: self.left,
            right: self.right,
            order: self.order,
        }
    }
}

impl Philosopher {
    /// A philosopher called `name` between the forks `left` and `right`, who
    /// takes the left one first.
    pub fn new(name: &str, left: usize, right: usize) -> (philosopher: Philosopher)
        ensures
            philosopher@ == (PhilosopherView {
                name: name@,
                left: left,
                right: right,
                order: Order::LeftFirst,
            }),
    {
        Philosopher { name: name.to_owned(), left: left, right: right, order: Order::LeftFirst }
    }

    /// A philosopher called `name` between the forks `left` and `right`, who
    /// takes them in the given order.
    pub fn with_order(
        name: &str,
        left: usize,
        right: usize,
        order: Order,
    ) -> (philosopher: Philosopher)
        ensures
            philosopher@ == (PhilosopherView {
                name: name@,
                left: left,
                right: right,
                order: order,
            }),
    {
        Philosopher { name: name.to_owned(), left: left, right: right, order: order }
    }

    /// The name.
    pub fn name(&self) -> (name: &str)
        ensures
            name@ == self@.name,
    {
        self.name.as_str()
    }

    /// The index of the fork to the left.
    pub fn left(&self) -> (left: usize)
        ensures
            left == self@.left,
    {
        self.left
    }

    /// The index of the fork to the right.
    pub fn right(&self) -> (right: usize)
        ensures
            right == self@.right,
    {
        self.right
    }

    /// Which fork is taken first.
    pub fn order(&self) -> (order: Order)
        ensures
            order == self@.order,
    {
        self.order
    }

    /// The index of the fork taken first.
    pub fn first(&self) -> (fork: usize)
        ensures
            fork == self@.first(),
    {
        match self.order {
            Order::LeftFirst => self.left,
            Order::RightFirst => self.right,
        }
    }

    /// The index of the fork taken second.
    pub fn second(&self) -> (fork: usize)
        ensures
            fork == self@.second(),
    {
        match self.order {
            Order::LeftFirst => self.right,
            Order::RightFirst => self.left,
        }
    }

    /// Whether the philosopher can sit at a table with `forks` forks: both its
    /// forks are on it, and they are not one and the same.
    pub fn fits(&self, forks: usize) -> (seated: bool)
        ensures
            seated == self@.fits(forks as nat),
    {
        self.left < forks && self.right < forks && self.left != self.right
    }

    /// The line of text for `event`: the name, then the event's fixed words.
    pub fn announce(&self, event: Event) -> (line: String)
        ensures
            line@ == self@.name + event.phrase(),
    {
        let mut line = self.name.clone();
        line.append(event.wording());
        line
    }
}

} // verus!

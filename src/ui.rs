//! The menu of the terminal front end and the events that drive it.
use vstd::prelude::*;

verus! {

/// What the front end's event loop receives: a key press, or a timer tick.
pub enum Event<I> {
    Input(I),
    Tick,
}

/// The pages of the front end, in tab order.
#[derive(PartialEq, Eq, Structural, Clone, Copy, Debug)]
pub enum MenuItem {
    Home,
    Burts,
    Log,
}

/// The tab position of each page.
pub open spec fn tab_index(m: MenuItem) -> usize {
    match m {
        MenuItem::Home => 0,
        MenuItem::Burts => 1,
        MenuItem::Log => 2,
    }
}

impl From<MenuItem> for usize {
    fn from(input: MenuItem) -> (r: usize) {
        match input {
            MenuItem::Home => 0,
            MenuItem::Burts => 1,
            MenuItem::Log => 2,
        }
    }
}

impl vstd::std_specs::convert::FromSpecImpl<MenuItem> for usize {
    open spec fn obeys_from_spec() -> bool {
        true
    }

    open spec fn from_spec(v: MenuItem) -> usize {
        tab_index(v)
    }
}

} // verus!

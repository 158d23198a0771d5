//! Decisions taken while driving the browser: which web driver to start and
//! reach, which section of the ranking page to read, and how a scroll goes.

use vstd::prelude::*;

verus! {

/// The web driver that is started and the address where it is reached.
pub struct DriverSettings {
    pub command: String,
    pub endpoint: String,
}

/// The program started as web driver where none is named.
pub open spec fn default_driver_command() -> Seq<char> {
    "geckodriver"@
}

/// The address of the web driver where none is named.
pub open spec fn default_driver_endpoint() -> Seq<char> {
    "http://localhost:4444"@
}

impl DriverSettings {
    /// The driver program and address to use: the ones given, or
    /// `geckodriver` reached at `http://localhost:4444`.
    pub fn resolve(command: Option<&str>, endpoint: Option<&str>) -> (r: DriverSettings)
        ensures
            r.command@ == match command {
                Some(c) => c@,
                None => default_driver_command(),
            },
            r.endpoint@ == match endpoint {
                Some(e) => e@,
                None => default_driver_endpoint(),
            },
    {
        let command = match command {
            Some(c) => String::from_str(c),
            None => String::from_str("geckodriver"),
        };
        let endpoint = match endpoint {
            Some(e) => String::from_str(e),
            None => String::from_str("http://localhost:4444"),
        };
        DriverSettings { command, endpoint }
    }
}

/// The section at `index` among the sections of the ranking page, or `None`
/// where there are not that many.
pub fn pick_section<T>(sections: Vec<T>, index: usize) -> (r: Option<T>)
    ensures
        index >= sections@.len() ==> r is None,
        index < sections@.len() ==> r == Some(sections@[index as int]),
{
    if index >= sections.len() {
        return None;
    }
    let mut sections = sections;
    let section = sections.remove(index);
    Some(section)
}

/// Which way a page is scrolled.
#[derive(Debug, Clone, Copy, PartialEq, Eq, Structural)]
pub enum ScrollDirection {
    Up,
    Down,
}

/// What happens to the down-arrow key in one scroll action.
#[derive(Debug, Clone, Copy, PartialEq, Eq, Structural)]
pub enum KeyMotion {
    /// The key is let go.
    Release,
    /// The key is pressed.
    Press,
}

/// A scroll in progress: the name of its key-input source, what is done to the
/// down-arrow key in each action, and how many actions are still to come.
pub struct ScrollPlan {
    pub source_id: String,
    pub motion: KeyMotion,
    pub remaining: usize,
}

impl ScrollPlan {
    /// A scroll of `times` actions. Scrolling up lets go of the down-arrow key
    /// from the source `scroll_up`; scrolling down presses it from the source
    /// `scroll_down`.
    pub fn new(direction: ScrollDirection, times: usize) -> (r: ScrollPlan)
        ensures
            r.remaining == times,
            r.source_id@ == match direction {
                ScrollDirection::Up => "scroll_up"@,
                ScrollDirection::Down => "scroll_down"@,
            },
            r.motion == match direction {
                ScrollDirection::Up => KeyMotion::Release,
                ScrollDirection::Down => KeyMotion::Press,
            },
    {
        match direction {
            ScrollDirection::Up => ScrollPlan {
                source_id: String::from_str("scroll_up"),
                motion: KeyMotion::Release,
                remaining: times,
            },
            ScrollDirection::Down => ScrollPlan {
                source_id: String::from_str("scroll_down"),
                motion: KeyMotion::Press,
                remaining: times,
            },
        }
    }

    /// Whether one more action is to be performed now; each `true` uses one
    /// up, so a plan of `n` actions answers `true` exactly `n` times and then
    /// `false` from then on.
    pub fn next_step(&mut self) -> (r: bool)
        ensures
            r == (old(self).remaining > 0),
            final(self).remaining == if r {
                (old(self).remaining - 1) as usize
            } else {
                0
            },
            final(self).source_id@ == old(self).source_id@,
            final(self).motion == old(self).motion,
    {
        if self.remaining > 0 {
            self.remaining = self.remaining - 1;
            true
        } else {
            false
        }
    }
}

} // verus!

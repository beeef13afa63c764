//! What the info panel does when something happens to it. The panel itself,
//! with its widgets, lives outside this library; here are its decisions,
//! from what it shows and what happened to what it must do next.

use vstd::prelude::*;
use vstd::string::StringExecFns;
use crate::agents::{agent_name, spec_agent_name, AgentID, BuildingID, PersonID, TripID};
use crate::info::{spec_starts_with, spec_strip_prefix_usize, starts_with, strip_prefix_usize};

verus! {

/// The tabs of the panel of a lane.
#[derive(Clone, Copy, Debug, PartialEq, Eq, Structural)]
pub enum LaneTab {
    OSM,
    Debug,
    Throughput,
}

/// The tabs of the panel of an intersection.
#[derive(Clone, Copy, Debug, PartialEq, Eq, Structural)]
pub enum IntersectionTab {
    Throughput,
    Delay,
}

/// The tab that the panel shows.
pub enum InfoTab {
    Nil,
    /// The people inside a building, as they were when the tab was opened,
    /// and which of them is shown.
    BldgPeople(Vec<PersonID>, usize),
    Lane(LaneTab),
    Intersection(IntersectionTab),
}

impl InfoTab {
    /// The length of the list of people shown and the person it is at, if
    /// the tab shows people.
    pub open spec fn spec_people(&self) -> Option<(usize, usize)> {
        match self {
            InfoTab::BldgPeople(people, idx) => Some((people@.len() as usize, *idx)),
            _ => None,
        }
    }

    /// The length of the list of people shown and the person it is at, if
    /// the tab shows people.
    pub fn people(&self) -> (r: Option<(usize, usize)>)
        ensures
            r == self.spec_people(),
    {
        match self {
            InfoTab::BldgPeople(people, idx) => Some((people.len(), *idx)),
            _ => None,
        }
    }

    /// The tab that a panel built anew shows: `change` applied to the tab
    /// `self` that was shown. `people_inside` are the people in the building
    /// shown, asked of the simulation; they matter only where the change is
    /// to show them. A change to another person needs a tab that shows
    /// people.
    pub fn changed(self, change: TabChange, people_inside: Vec<PersonID>) -> (tab: InfoTab)
        requires
            change is PersonAt ==> self is BldgPeople,
        ensures
            tab == match change {
                TabChange::Nil => InfoTab::Nil,
                TabChange::PeopleInside => InfoTab::BldgPeople(people_inside, 0),
                TabChange::PersonAt(idx) => InfoTab::BldgPeople(self->BldgPeople_0, idx),
                TabChange::Lane(t) => InfoTab::Lane(t),
                TabChange::Intersection(t) => InfoTab::Intersection(t),
            },
    {
        match change {
            TabChange::Nil => InfoTab::Nil,
            TabChange::PeopleInside => InfoTab::BldgPeople(people_inside, 0),
            TabChange::PersonAt(idx) => match self {
                InfoTab::BldgPeople(people, _) => InfoTab::BldgPeople(people, idx),
                other => other,
            },
            TabChange::Lane(t) => InfoTab::Lane(t),
            TabChange::Intersection(t) => InfoTab::Intersection(t),
        }
    }
}

/// What the panel turns to.
#[derive(Clone, Copy, Debug, PartialEq, Eq, Structural)]
pub enum Target {
    /// The object that it shows already.
    Same,
    Trip(TripID),
    Person(PersonID),
    Building(BuildingID),
}

/// Which tab the panel opens.
#[derive(Clone, Copy, Debug, PartialEq, Eq, Structural)]
pub enum TabChange {
    /// No tab.
    Nil,
    /// The people inside the building shown, to be asked of the simulation,
    /// starting with the first.
    PeopleInside,
    /// The same list of people, at the given person.
    PersonAt(usize),
    Lane(LaneTab),
    Intersection(IntersectionTab),
}

/// What a click on a button of the panel leads to.
#[derive(Clone, Copy, Debug, PartialEq, Eq, Structural)]
pub enum ClickOutcome {
    /// The panel closes.
    Close,
    /// The view moves to the object shown.
    JumpToObject,
    /// The simulation resumes, so that the view follows the agent.
    FollowAgent,
    /// Nothing: the button is there for its tooltip.
    Nothing,
    /// The view moves to the marker that the button names.
    WarpToMarker,
    /// The panel is built anew.
    Reopen { target: Target, tab: TabChange, keep_actions: bool, preserve_scroll: bool },
    /// The object shown is selected and the action that the button names is
    /// applied to it.
    ApplyObjectAction,
}

/// The panel built anew for the same object, without its actions and where
/// it was scrolled to.
pub open spec fn same_with_tab(tab: TabChange) -> ClickOutcome {
    ClickOutcome::Reopen { target: Target::Same, tab, keep_actions: false, preserve_scroll: true }
}

/// The panel built anew for another object.
pub open spec fn turn_to(target: Target) -> ClickOutcome {
    ClickOutcome::Reopen {
        target,
        tab: TabChange::Nil,
        keep_actions: false,
        preserve_scroll: false,
    }
}

/// The panel built anew for the same object with its actions, on another
/// tab.
pub open spec fn switch_tab(tab: TabChange) -> ClickOutcome {
    ClickOutcome::Reopen { target: Target::Same, tab, keep_actions: true, preserve_scroll: false }
}

/// The person before person `idx` of a list, or the first.
pub open spec fn spec_previous_person(idx: usize) -> usize {
    if idx != 0 {
        (idx - 1) as usize
    } else {
        idx
    }
}

/// The person after person `idx` of a list of `len`, or the last.
pub open spec fn spec_next_person(len: usize, idx: usize) -> usize {
    if idx != len - 1 && idx < usize::MAX {
        (idx + 1) as usize
    } else {
        idx
    }
}

/// What a click on the button named `action` leads to, or `None` where the
/// panel has no such button to click. `is_marker` says whether the trip
/// shown has a marker of that name, `shows_building` whether the panel shows
/// a building, and `people` the length of the list of people shown and the
/// person it is at.
pub open spec fn spec_click_outcome(
    action: Seq<char>,
    is_marker: bool,
    shows_building: bool,
    people: Option<(usize, usize)>,
) -> Option<ClickOutcome> {
    if action == "close info"@ {
        Some(ClickOutcome::Close)
    } else if action == "jump to object"@ {
        Some(ClickOutcome::JumpToObject)
    } else if action == "follow agent"@ {
        Some(ClickOutcome::FollowAgent)
    } else if spec_starts_with(action, "examine trip phase "@) {
        if spec_strip_prefix_usize(action, "examine trip phase "@).is_some() {
            Some(ClickOutcome::Nothing)
        } else {
            None
        }
    } else if is_marker {
        Some(ClickOutcome::WarpToMarker)
    } else if action == "examine people inside"@ {
        if shows_building {
            Some(same_with_tab(TabChange::PeopleInside))
        } else {
            None
        }
    } else if action == "previous"@ {
        match people {
            Some((len, idx)) => Some(same_with_tab(TabChange::PersonAt(spec_previous_person(idx)))),
            None => None,
        }
    } else if action == "next"@ {
        match people {
            Some((len, idx)) => if len >= 1 {
                Some(same_with_tab(TabChange::PersonAt(spec_next_person(len, idx))))
            } else {
                None
            },
            None => None,
        }
    } else if action == "close occupants panel"@ {
        Some(same_with_tab(TabChange::Nil))
    } else if spec_starts_with(action, "examine Trip #"@) {
        match spec_strip_prefix_usize(action, "examine Trip #"@) {
            Some(idx) => Some(turn_to(Target::Trip(TripID(idx)))),
            None => None,
        }
    } else if spec_starts_with(action, "examine Person #"@) {
        match spec_strip_prefix_usize(action, "examine Person #"@) {
            Some(idx) => Some(turn_to(Target::Person(PersonID(idx)))),
            None => None,
        }
    } else if spec_starts_with(action, "examine Building #"@) {
        match spec_strip_prefix_usize(action, "examine Building #"@) {
            Some(idx) => Some(turn_to(Target::Building(BuildingID(idx)))),
            None => None,
        }
    } else if action == "Main"@ {
        Some(switch_tab(TabChange::Nil))
    } else if action == "OpenStreetMap"@ {
        Some(switch_tab(TabChange::Lane(LaneTab::OSM)))
    } else if action == "Debug"@ {
        Some(switch_tab(TabChange::Lane(LaneTab::Debug)))
    } else if action == "Traffic"@ {
        Some(switch_tab(TabChange::Lane(LaneTab::Throughput)))
    } else if action == "Throughput"@ {
        Some(switch_tab(TabChange::Intersection(IntersectionTab::Throughput)))
    } else if action == "Delay"@ {
        Some(switch_tab(TabChange::Intersection(IntersectionTab::Delay)))
    } else {
        Some(ClickOutcome::ApplyObjectAction)
    }
}

/// Tests whether `text` is `wanted`.
fn is_text(text: &String, wanted: &str) -> (b: bool)
    ensures
        b == (text@ == wanted@),
{
    let wanted: String = String::from_str(wanted);
    *text == wanted
}

/// Reads the number after `prefix`, or `None` if none follows.
fn number_after(action: &String, prefix: &str) -> (r: Option<usize>)
    requires
        spec_starts_with(action@, prefix@),
    ensures
        r == spec_strip_prefix_usize(action@, prefix@),
{
    if crate::info::names_a_number(action, prefix) {
        strip_prefix_usize(action, prefix)
    } else {
        None
    }
}

/// Decides what a click on the button named `action` leads to, on a panel
/// that shows the tab `tab`.
pub fn click_outcome(action: &String, is_marker: bool, shows_building: bool, tab: &InfoTab) -> (outcome:
    Option<ClickOutcome>)
    ensures
        outcome == spec_click_outcome(action@, is_marker, shows_building, tab.spec_people()),
{
    let people: Option<(usize, usize)> = tab.people();
    if is_text(action, "close info") {
        Some(ClickOutcome::Close)
    } else if is_text(action, "jump to object") {
        Some(ClickOutcome::JumpToObject)
    } else if is_text(action, "follow agent") {
        Some(ClickOutcome::FollowAgent)
    } else if starts_with(action.as_str(), "examine trip phase ") {
        match number_after(action, "examine trip phase ") {
            Some(_) => Some(ClickOutcome::Nothing),
            None => None,
        }
    } else if is_marker {
        Some(ClickOutcome::WarpToMarker)
    } else if is_text(action, "examine people inside") {
        if shows_building {
            Some(
                ClickOutcome::Reopen {
                    target: Target::Same,
                    tab: TabChange::PeopleInside,
                    keep_actions: false,
                    preserve_scroll: true,
                },
            )
        } else {
            None
        }
    } else if is_text(action, "previous") {
        match people {
            Some((_, idx)) => Some(
                ClickOutcome::Reopen {
                    target: Target::Same,
                    tab: TabChange::PersonAt(if idx != 0 { idx - 1 } else { idx }),
                    keep_actions: false,
                    preserve_scroll: true,
                },
            ),
            None => None,
        }
    } else if is_text(action, "next") {
        match people {
            Some((len, idx)) => if len >= 1 {
                Some(
                    ClickOutcome::Reopen {
                        target: Target::Same,
                        tab: TabChange::PersonAt(
                            if idx != len - 1 && idx < usize::MAX { idx + 1 } else { idx },
                        ),
                        keep_actions: false,
                        preserve_scroll: true,
                    },
                )
            } else {
                None
            },
            None => None,
        }
    } else if is_text(action, "close occupants panel") {
        Some(
            ClickOutcome::Reopen {
                target: Target::Same,
                tab: TabChange::Nil,
                keep_actions: false,
                preserve_scroll: true,
            },
        )
    } else if starts_with(action.as_str(), "examine Trip #") {
        match number_after(action, "examine Trip #") {
            Some(idx) => Some(
                ClickOutcome::Reopen {
                    target: Target::Trip(TripID(idx)),
                    tab: TabChange::Nil,
                    keep_actions: false,
                    preserve_scroll: false,
                },
            ),
            None => None,
        }
    } else if starts_with(action.as_str(), "examine Person #") {
        match number_after(action, "examine Person #") {
            Some(idx) => Some(
                ClickOutcome::Reopen {
                    target: Target::Person(PersonID(idx)),
                    tab: TabChange::Nil,
                    keep_actions: false,
                    preserve_scroll: false,
                },
            ),
            None => None,
        }
    } else if starts_with(action.as_str(), "examine Building #") {
        match number_after(action, "examine Building #") {
            Some(idx) => Some(
                ClickOutcome::Reopen {
                    target: Target::Building(BuildingID(idx)),
                    tab: TabChange::Nil,
                    keep_actions: false,
                    preserve_scroll: false,
                },
            ),
            None => None,
        }
    } else {
        let tab: Option<TabChange> = if is_text(action, "Main") {
            Some(TabChange::Nil)
        } else if is_text(action, "OpenStreetMap") {
            Some(TabChange::Lane(LaneTab::OSM))
        } else if is_text(action, "Debug") {
            Some(TabChange::Lane(LaneTab::Debug))
        } else if is_text(action, "Traffic") {
            Some(TabChange::Lane(LaneTab::Throughput))
        } else if is_text(action, "Throughput") {
            Some(TabChange::Intersection(IntersectionTab::Throughput))
        } else if is_text(action, "Delay") {
            Some(TabChange::Intersection(IntersectionTab::Delay))
        } else {
            None
        };
        match tab {
            Some(tab) => Some(
                ClickOutcome::Reopen {
                    target: Target::Same,
                    tab,
                    keep_actions: true,
                    preserve_scroll: false,
                },
            ),
            None => Some(ClickOutcome::ApplyObjectAction),
        }
    }
}

/// Where the trip shown has got to.
#[derive(Clone, Copy, Debug, PartialEq, Eq, Structural)]
pub enum TripResult {
    /// The agent that is on the trip now.
    Underway(AgentID),
    /// The trip is between two agents.
    ModeChange,
    TripDone,
    TripDoesntExist,
}

/// What the panel does when time has passed.
#[derive(Clone, Copy, Debug, PartialEq, Eq, Structural)]
pub enum LiveUpdate {
    /// The agent shown is gone and the trip goes on with another: the panel
    /// turns to that one and says so.
    FollowNewAgent(AgentID),
    /// The trip goes on with another agent while the one shown still
    /// exists: the panel closes and the user is asked whom to follow.
    AskWhomToFollow(AgentID, AgentID),
    /// The trip is over: the panel turns to the trip and says so.
    ShowFinishedTrip(TripID),
    /// The panel is built anew as it is, where it was scrolled to.
    Refresh,
}

/// What the panel does when time has passed, or `None` where the trip shown
/// is said not to exist. `agent` is the agent shown, if the panel shows one,
/// `trip` the trip whose details are shown, with where it has got to, and
/// `agent_exists` whether the agent shown still exists.
pub open spec fn spec_live_update(
    agent: Option<AgentID>,
    trip: Option<(TripID, TripResult)>,
    agent_exists: bool,
) -> Option<LiveUpdate> {
    match (agent, trip) {
        (Some(a), Some((id, TripResult::Underway(a2)))) => if a != a2 {
            if !agent_exists {
                Some(LiveUpdate::FollowNewAgent(a2))
            } else {
                Some(LiveUpdate::AskWhomToFollow(a, a2))
            }
        } else {
            Some(LiveUpdate::Refresh)
        },
        (Some(a), Some((id, TripResult::TripDone))) => Some(LiveUpdate::ShowFinishedTrip(id)),
        (Some(a), Some((id, TripResult::TripDoesntExist))) => None,
        _ => Some(LiveUpdate::Refresh),
    }
}

/// Decides what the panel does when time has passed.
pub fn live_update(
    agent: Option<AgentID>,
    trip: Option<(TripID, TripResult)>,
    agent_exists: bool,
) -> (update: Option<LiveUpdate>)
    ensures
        update == spec_live_update(agent, trip, agent_exists),
{
    match agent {
        Some(a) => match trip {
            Some((id, result)) => match result {
                TripResult::Underway(a2) => {
                    if a != a2 {
                        if !agent_exists {
                            Some(LiveUpdate::FollowNewAgent(a2))
                        } else {
                            Some(LiveUpdate::AskWhomToFollow(a, a2))
                        }
                    } else {
                        Some(LiveUpdate::Refresh)
                    }
                },
                TripResult::TripDone => Some(LiveUpdate::ShowFinishedTrip(id)),
                TripResult::TripDoesntExist => None,
                TripResult::ModeChange => Some(LiveUpdate::Refresh),
            },
            None => Some(LiveUpdate::Refresh),
        },
        None => Some(LiveUpdate::Refresh),
    }
}

/// Tests whether a new panel gets the action to follow the agent put in
/// front of its actions: when the simulation is paused, the panel shows an
/// agent, and the first action is not that one already.
pub fn needs_follow_action(paused: bool, shows_agent: bool, first_action: Option<&String>) -> (b:
    bool)
    ensures
        b == (paused && shows_agent && match first_action {
            Some(label) => label@ != "follow agent"@,
            None => true,
        }),
{
    paused && shows_agent && match first_action {
        Some(label) => !is_text(label, "follow agent"),
        None => true,
    }
}

/// What the user is told when the trip has passed from `from` to `to`.
pub fn now_following_message(from: AgentID, to: AgentID) -> (text: String)
    ensures
        text@ == spec_agent_name(from) + " is now "@ + spec_agent_name(to)
            + ", following them instead"@,
{
    let mut text: String = agent_name(from);
    text.append(" is now ");
    let other: String = agent_name(to);
    text.append(other.as_str());
    text.append(", following them instead");
    text
}

/// What the user is told when the trip of `a` is over.
pub fn trip_finished_message(a: AgentID) -> (text: String)
    ensures
        text@ == spec_agent_name(a) + " has finished their trip. Say goodbye!"@,
{
    let mut text: String = agent_name(a);
    text.append(" has finished their trip. Say goodbye!");
    text
}

/// The two choices that the user gets when the trip passes from `from` to
/// `to`: to stay with the one, or to go on with the other.
pub fn trip_transition_choices(from: AgentID, to: AgentID) -> (choices: (String, String))
    ensures
        choices.0@ == "keep following "@ + spec_agent_name(from),
        choices.1@ == "follow "@ + spec_agent_name(to) + " instead"@,
{
    let mut orig: String = String::from_str("keep following ");
    let from_name: String = agent_name(from);
    orig.append(from_name.as_str());
    let mut change: String = String::from_str("follow ");
    let to_name: String = agent_name(to);
    change.append(to_name.as_str());
    change.append(" instead");
    (orig, change)
}

/// The agent to follow after the user has chosen: `from` if the choice is
/// the first of the two, else `to`.
pub fn trip_transition(chosen: &String, from: AgentID, to: AgentID) -> (agent: AgentID)
    ensures
        agent == if chosen@ == "keep following "@ + spec_agent_name(from) {
            from
        } else {
            to
        },
{
    let choices: (String, String) = trip_transition_choices(from, to);
    if *chosen == choices.0 {
        from
    } else {
        to
    }
}

} // verus!

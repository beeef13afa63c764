use building_procgen::agents::{
    agent_name, color_for_mode, usize_to_string, AgentID, BuildingID, CarID, PedestrianID,
    PersonID, TripID, TripMode, VehicleType,
};
use building_procgen::options::{ApplyEffects, Options, TrafficSignalStyle};
use building_procgen::panel::{
    click_outcome, live_update, needs_follow_action, now_following_message, trip_finished_message,
    trip_transition, trip_transition_choices, ClickOutcome, InfoTab, IntersectionTab, LaneTab,
    LiveUpdate, TabChange, Target, TripResult,
};

fn people_tab(len: usize, idx: usize) -> InfoTab {
    InfoTab::BldgPeople((0..len).map(PersonID).collect(), idx)
}

fn click(action: &str) -> Option<ClickOutcome> {
    click_outcome(&action.to_string(), false, true, &people_tab(3, 1))
}

fn reopen(target: Target, tab: TabChange, keep_actions: bool, preserve_scroll: bool) -> ClickOutcome {
    ClickOutcome::Reopen { target, tab, keep_actions, preserve_scroll }
}

#[test]
fn numbers_are_written_in_base_ten() {
    assert_eq!(usize_to_string(0), "0");
    assert_eq!(usize_to_string(7), "7");
    assert_eq!(usize_to_string(10), "10");
    assert_eq!(usize_to_string(1234567890), "1234567890");
    assert_eq!(usize_to_string(usize::MAX), usize::MAX.to_string());
}

#[test]
fn agents_are_named_by_kind_and_number() {
    assert_eq!(agent_name(AgentID::Car(CarID(12, VehicleType::Car))), "Car #12");
    assert_eq!(agent_name(AgentID::Car(CarID(0, VehicleType::Bike))), "Bike #0");
    assert_eq!(agent_name(AgentID::Car(CarID(305, VehicleType::Bus))), "Bus #305");
    assert_eq!(agent_name(AgentID::Pedestrian(PedestrianID(9))), "Pedestrian #9");
}

#[test]
fn modes_have_their_colors() {
    assert_eq!(color_for_mode(TripMode::Walk), "unzoomed pedestrian");
    assert_eq!(color_for_mode(TripMode::Bike), "unzoomed bike");
    assert_eq!(color_for_mode(TripMode::Transit), "unzoomed bus");
    assert_eq!(color_for_mode(TripMode::Drive), "unzoomed car");
}

#[test]
fn fixed_buttons_lead_where_they_say() {
    assert_eq!(click("close info"), Some(ClickOutcome::Close));
    assert_eq!(click("jump to object"), Some(ClickOutcome::JumpToObject));
    assert_eq!(click("follow agent"), Some(ClickOutcome::FollowAgent));
    assert_eq!(click("examine trip phase 2"), Some(ClickOutcome::Nothing));
    assert_eq!(
        click("close occupants panel"),
        Some(reopen(Target::Same, TabChange::Nil, false, true))
    );
    assert_eq!(click("Main"), Some(reopen(Target::Same, TabChange::Nil, true, false)));
    assert_eq!(
        click("OpenStreetMap"),
        Some(reopen(Target::Same, TabChange::Lane(LaneTab::OSM), true, false))
    );
    assert_eq!(
        click("Debug"),
        Some(reopen(Target::Same, TabChange::Lane(LaneTab::Debug), true, false))
    );
    assert_eq!(
        click("Traffic"),
        Some(reopen(Target::Same, TabChange::Lane(LaneTab::Throughput), true, false))
    );
    assert_eq!(
        click("Throughput"),
        Some(reopen(Target::Same, TabChange::Intersection(IntersectionTab::Throughput), true, false))
    );
    assert_eq!(
        click("Delay"),
        Some(reopen(Target::Same, TabChange::Intersection(IntersectionTab::Delay), true, false))
    );
    assert_eq!(click("change the speed limit"), Some(ClickOutcome::ApplyObjectAction));
}

#[test]
fn numbered_buttons_lead_to_their_object() {
    assert_eq!(
        click("examine Trip #41"),
        Some(reopen(Target::Trip(TripID(41)), TabChange::Nil, false, false))
    );
    assert_eq!(
        click("examine Person #5"),
        Some(reopen(Target::Person(PersonID(5)), TabChange::Nil, false, false))
    );
    assert_eq!(
        click("examine Building #0"),
        Some(reopen(Target::Building(BuildingID(0)), TabChange::Nil, false, false))
    );
    assert_eq!(click("examine Trip #"), None);
    assert_eq!(click("examine Person #x"), None);
    assert_eq!(click("examine trip phase two"), None);
}

#[test]
fn markers_come_before_buttons_of_the_same_name() {
    let name = "previous".to_string();
    assert_eq!(
        click_outcome(&name, true, true, &people_tab(3, 1)),
        Some(ClickOutcome::WarpToMarker)
    );
    let fixed = "close info".to_string();
    assert_eq!(click_outcome(&fixed, true, true, &InfoTab::Nil), Some(ClickOutcome::Close));
}

#[test]
fn people_list_steps_and_stops_at_its_ends() {
    let step = |action: &str, len: usize, idx: usize| {
        click_outcome(&action.to_string(), false, true, &people_tab(len, idx))
    };
    let at = |idx: usize| Some(reopen(Target::Same, TabChange::PersonAt(idx), false, true));
    assert_eq!(step("previous", 3, 2), at(1));
    assert_eq!(step("previous", 3, 0), at(0));
    assert_eq!(step("next", 3, 0), at(1));
    assert_eq!(step("next", 3, 2), at(2));
    assert_eq!(step("next", 1, 0), at(0));
    assert_eq!(step("next", 0, 0), None);
    assert_eq!(click_outcome(&"next".to_string(), false, true, &InfoTab::Nil), None);
    assert_eq!(
        click_outcome(&"previous".to_string(), false, true, &InfoTab::Lane(LaneTab::OSM)),
        None
    );
}

#[test]
fn people_inside_are_shown_for_buildings_only() {
    let name = "examine people inside".to_string();
    assert_eq!(
        click_outcome(&name, false, true, &InfoTab::Nil),
        Some(reopen(Target::Same, TabChange::PeopleInside, false, true))
    );
    assert_eq!(click_outcome(&name, false, false, &InfoTab::Nil), None);
}

#[test]
fn live_update_follows_the_trip() {
    let car = AgentID::Car(CarID(1, VehicleType::Car));
    let ped = AgentID::Pedestrian(PedestrianID(2));
    let trip = TripID(8);
    assert_eq!(live_update(None, None, true), Some(LiveUpdate::Refresh));
    assert_eq!(live_update(Some(car), None, true), Some(LiveUpdate::Refresh));
    assert_eq!(
        live_update(None, Some((trip, TripResult::TripDoesntExist)), true),
        Some(LiveUpdate::Refresh)
    );
    assert_eq!(
        live_update(Some(car), Some((trip, TripResult::Underway(car))), true),
        Some(LiveUpdate::Refresh)
    );
    assert_eq!(
        live_update(Some(car), Some((trip, TripResult::Underway(ped))), false),
        Some(LiveUpdate::FollowNewAgent(ped))
    );
    assert_eq!(
        live_update(Some(car), Some((trip, TripResult::Underway(ped))), true),
        Some(LiveUpdate::AskWhomToFollow(car, ped))
    );
    assert_eq!(
        live_update(Some(car), Some((trip, TripResult::TripDone)), true),
        Some(LiveUpdate::ShowFinishedTrip(trip))
    );
    assert_eq!(
        live_update(Some(car), Some((trip, TripResult::ModeChange)), true),
        Some(LiveUpdate::Refresh)
    );
    assert_eq!(live_update(Some(car), Some((trip, TripResult::TripDoesntExist)), true), None);
}

#[test]
fn follow_action_is_added_once() {
    let follow = "follow agent".to_string();
    let other = "edit lane".to_string();
    assert!(needs_follow_action(true, true, None));
    assert!(needs_follow_action(true, true, Some(&other)));
    assert!(!needs_follow_action(true, true, Some(&follow)));
    assert!(!needs_follow_action(false, true, None));
    assert!(!needs_follow_action(true, false, None));
}

#[test]
fn messages_name_the_agents() {
    let car = AgentID::Car(CarID(1, VehicleType::Car));
    let ped = AgentID::Pedestrian(PedestrianID(2));
    assert_eq!(
        now_following_message(car, ped),
        "Car #1 is now Pedestrian #2, following them instead"
    );
    assert_eq!(trip_finished_message(ped), "Pedestrian #2 has finished their trip. Say goodbye!");
    let (orig, change) = trip_transition_choices(car, ped);
    assert_eq!(orig, "keep following Car #1");
    assert_eq!(change, "follow Pedestrian #2 instead");
    assert_eq!(trip_transition(&orig, car, ped), car);
    assert_eq!(trip_transition(&change, car, ped), ped);
}

#[test]
fn applying_options_tells_what_to_redo() {
    let mut opts = Options::default();
    let same = opts.apply(true, TrafficSignalStyle::GroupArrows, None);
    assert_eq!(same, ApplyEffects { rerender_traffic_signals: false, reload_map: false });
    assert!(opts.dev);
    let night = Some("../data/system/night_colors.json".to_string());
    let both = opts.apply(false, TrafficSignalStyle::Icons, night.clone());
    assert_eq!(both, ApplyEffects { rerender_traffic_signals: true, reload_map: true });
    assert!(!opts.dev);
    assert!(opts.traffic_signal_style == TrafficSignalStyle::Icons);
    assert_eq!(opts.color_scheme, night);
    let again = opts.apply(false, TrafficSignalStyle::Icons, night.clone());
    assert_eq!(again, ApplyEffects { rerender_traffic_signals: false, reload_map: false });
    let back = opts.apply(false, TrafficSignalStyle::Sidewalks, None);
    assert_eq!(back, ApplyEffects { rerender_traffic_signals: true, reload_map: true });
    assert_eq!(opts.color_scheme, None);
}

#[test]
fn tab_changes_give_the_next_tab() {
    let inside = vec![PersonID(4), PersonID(9)];
    match InfoTab::Nil.changed(TabChange::PeopleInside, inside.clone()) {
        InfoTab::BldgPeople(people, idx) => {
            assert_eq!(people, inside);
            assert_eq!(idx, 0);
        }
        _ => panic!("expected the people inside"),
    }
    match people_tab(3, 0).changed(TabChange::PersonAt(2), vec![]) {
        InfoTab::BldgPeople(people, idx) => {
            assert_eq!(people, vec![PersonID(0), PersonID(1), PersonID(2)]);
            assert_eq!(idx, 2);
        }
        _ => panic!("expected the same people"),
    }
    assert!(matches!(people_tab(3, 0).changed(TabChange::Nil, vec![]), InfoTab::Nil));
    assert!(matches!(
        InfoTab::Nil.changed(TabChange::Lane(LaneTab::Debug), vec![]),
        InfoTab::Lane(LaneTab::Debug)
    ));
    assert!(matches!(
        InfoTab::Nil.changed(TabChange::Intersection(IntersectionTab::Delay), vec![]),
        InfoTab::Intersection(IntersectionTab::Delay)
    ));
    assert_eq!(people_tab(3, 1).people(), Some((3, 1)));
    assert_eq!(InfoTab::Nil.people(), None);
}

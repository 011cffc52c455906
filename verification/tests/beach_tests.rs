use ocean::beach::Beach;
use ocean::crab::Color;
use ocean::crab::Crab;
use ocean::crab::Diet;

fn crab(name: &str, speed: u64, color: Color) -> Crab {
    Crab::new(String::from(name), speed, color, Diet::Fish)
}

#[test]
fn adds_are_recorded_in_call_order() {
    let mut beach = Beach::new();
    assert_eq!(beach.size(), 0);
    beach.add_crab(crab("Alice", 5, Color::Red));
    beach.add_crab(crab("Bob", 9, Color::Blue));
    beach.add_crab(crab("Cara", 9, Color::Yellow));
    assert_eq!(beach.size(), 3);
    assert_eq!(beach.get_crab(0).name(), "Alice");
    assert_eq!(beach.get_crab(1).name(), "Bob");
    assert_eq!(beach.get_crab(2).name(), "Cara");
    assert_eq!(beach.get_crab(0).speed(), 5);
    let names: Vec<&str> = beach.crabs().iter().map(|c| c.name()).collect();
    assert_eq!(names, vec!["Alice", "Bob", "Cara"]);
}

#[test]
fn fastest_on_empty_beach_is_none() {
    let beach = Beach::new();
    assert!(beach.get_fastest_crab().is_none());
}

#[test]
fn fastest_is_first_to_reach_the_maximum() {
    let mut beach = Beach::new();
    beach.add_crab(crab("Alice", 5, Color::Red));
    beach.add_crab(crab("Bob", 9, Color::Blue));
    beach.add_crab(crab("Cara", 9, Color::Yellow));
    let fastest = beach.get_fastest_crab().unwrap();
    assert_eq!(fastest.name(), "Bob");
    assert_eq!(fastest.speed(), 9);
}

#[test]
fn fastest_with_equal_speeds_is_the_first_added() {
    let mut beach = Beach::new();
    beach.add_crab(crab("One", 1, Color::Red));
    beach.add_crab(crab("Two", 1, Color::Blue));
    assert_eq!(beach.get_fastest_crab().unwrap().name(), "One");
}

#[test]
fn find_by_name_keeps_insertion_order_and_matches_exactly() {
    let mut beach = Beach::new();
    beach.add_crab(crab("Alice", 5, Color::Red));
    beach.add_crab(crab("Bob", 9, Color::Blue));
    beach.add_crab(crab("Alice", 7, Color::Yellow));
    let found = beach.find_crabs_by_name("Alice");
    assert_eq!(found.len(), 2);
    assert_eq!(found[0].speed(), 5);
    assert_eq!(found[1].speed(), 7);
    assert!(found.iter().all(|c| c.name() == "Alice"));
    assert!(beach.find_crabs_by_name("Ali").is_empty());
    assert!(beach.find_crabs_by_name("Zed").is_empty());
}

#[test]
fn breeding_mixes_colors_and_fixes_speed_at_one() {
    let mut beach = Beach::new();
    beach.add_crab(crab("Alice", 5, Color::Red));
    beach.add_crab(crab("Bob", 9, Color::Blue));
    let child = beach.breed(0, 1, String::from("Kid"), Diet::Plants);
    assert_eq!(child.name(), "Kid");
    assert_eq!(child.speed(), 1);
    assert_eq!(child.color(), Color::Purple);
    assert_eq!(child.diet(), Diet::Plants);
    // breeding alone does not mutate the registry
    assert_eq!(beach.size(), 2);
}

#[test]
fn color_crossing_rules() {
    assert_eq!(Color::cross(Color::Red, Color::Yellow), Color::Orange);
    assert_eq!(Color::cross(Color::Yellow, Color::Blue), Color::Green);
    assert_eq!(Color::cross(Color::Blue, Color::Red), Color::Purple);
    assert_eq!(Color::cross(Color::Red, Color::Red), Color::Red);
    assert_eq!(Color::cross(Color::Green, Color::Blue), Color::Green);
}

#[test]
fn breed_crabs_appends_the_offspring_at_the_end() {
    let mut beach = Beach::new();
    beach.add_crab(crab("Alice", 5, Color::Red));
    beach.add_crab(crab("Bob", 9, Color::Blue));
    beach.breed_crabs(0, 1, String::from("Kid"), Diet::Shrimp);
    assert_eq!(beach.size(), 3);
    let last = beach.get_crab(2);
    assert_eq!(last.name(), "Kid");
    assert_eq!(last.speed(), 1);
    assert_eq!(last.color(), Color::Purple);
}

#[test]
fn average_speed_is_a_truncated_integer_mean() {
    let mut beach = Beach::new();
    beach.add_crab(crab("Alice", 5, Color::Red));
    beach.add_crab(crab("Bob", 9, Color::Blue));
    beach.add_crab(crab("Cara", 9, Color::Yellow));
    let two = vec![String::from("Alice"), String::from("Bob")];
    assert_eq!(beach.average_speed(&two), 7); // 14 / 2
    let three = vec![String::from("Alice"), String::from("Bob"), String::from("Cara")];
    assert_eq!(beach.average_speed(&three), 7); // 23 / 3, truncated
    let none: Vec<String> = Vec::new();
    assert_eq!(beach.average_speed(&none), 0);
}

#[test]
fn average_speed_counts_an_unmatched_name_as_zero() {
    let mut beach = Beach::new();
    beach.add_crab(crab("Alice", 6, Color::Red));
    let names = vec![String::from("Alice"), String::from("Ghost")];
    assert_eq!(beach.average_speed(&names), 3); // (6 + 0) / 2
}

#[test]
fn average_speed_resolves_a_name_to_its_first_match() {
    let mut beach = Beach::new();
    beach.add_crab(crab("Alice", 4, Color::Red));
    beach.add_crab(crab("Alice", 100, Color::Blue));
    let names = vec![String::from("Alice")];
    assert_eq!(beach.average_speed(&names), 4);
}

#[test]
fn winner_is_the_clan_with_the_greater_mean_speed() {
    let mut beach = Beach::new();
    beach.add_crab(crab("Alice", 5, Color::Red));
    beach.add_crab(crab("Bob", 9, Color::Blue));
    beach.add_crab(crab("Cara", 9, Color::Yellow));
    beach.add_member_to_clan("red", "Alice");
    beach.add_member_to_clan("red", "Bob");
    beach.add_member_to_clan("blue", "Cara");
    // red: mean of 5 and 9 is 7; blue: mean of 9 is 9
    let winner = beach.get_winner_clan("red", "blue").unwrap();
    assert_eq!(winner, Some(String::from("blue")));
    let winner_flipped = beach.get_winner_clan("blue", "red").unwrap();
    assert_eq!(winner_flipped, Some(String::from("blue")));
}

#[test]
fn winner_with_equal_means_is_none() {
    let mut beach = Beach::new();
    beach.add_crab(crab("Alice", 7, Color::Red));
    beach.add_crab(crab("Bob", 7, Color::Blue));
    beach.add_member_to_clan("red", "Alice");
    beach.add_member_to_clan("blue", "Bob");
    assert_eq!(beach.get_winner_clan("red", "blue").unwrap(), None);
}

#[test]
fn winner_with_an_unknown_id_is_an_error() {
    let mut beach = Beach::new();
    beach.add_crab(crab("Alice", 5, Color::Red));
    beach.add_member_to_clan("red", "Alice");
    let result = beach.get_winner_clan("red", "unknown");
    assert!(result.is_err());
    let other = beach.get_winner_clan("unknown", "red");
    assert!(other.is_err());
}

#[test]
fn clan_membership_is_visible_through_the_registry() {
    let mut beach = Beach::new();
    beach.add_crab(crab("Alice", 5, Color::Red));
    beach.add_member_to_clan("red", "Alice");
    let directory = beach.get_clan_system();
    assert_eq!(directory.get_clan_count(), 1);
    assert_eq!(directory.get_clan_member_names("red"), vec![String::from("Alice")]);
}

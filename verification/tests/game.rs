use irken::bot::{dispatch, dispatch_would_overflow, parse_command, starting_items};
use irken::commands::{
    a, an, bid, craft, create, describe_item, equip, get_item_name, give, hi, look,
    look_at_character, look_at_inventory_item, make, make_would_overflow, quit,
    remove_ownership_suffixes, update_characters, Outcome, Subject, I,
};
use irken::world::{Character, Characters, Inventory, Item, Items};

fn users(names: &[&str]) -> Vec<String> {
    names.iter().map(|n| n.to_string()).collect()
}

fn room(names: &[&str]) -> (Items, Characters) {
    let items = starting_items();
    let mut characters = Characters::new();
    update_characters(&users(names), &mut characters);
    (items, characters)
}

fn count_of(characters: &Characters, who: &str, item: &str) -> Option<u64> {
    characters.get(who).and_then(|c| c.inventory.get(item))
}

fn total(characters: &Characters, item: &str) -> u64 {
    let mut sum = 0;
    for i in 0..characters.len() {
        sum += characters.at(i).inventory.get(item).unwrap_or(0);
    }
    sum
}

fn run(source: &str, msg: &str, items: &mut Items, characters: &mut Characters) -> Outcome {
    let words = parse_command(msg).expect("a command");
    dispatch(source, &words, items, characters)
}

fn reply(source: &str, msg: &str, items: &mut Items, characters: &mut Characters) -> String {
    match run(source, msg, items, characters) {
        Outcome::Reply(s) => s,
        Outcome::Ignore => panic!("ignored"),
        Outcome::Quit => panic!("quit"),
    }
}

#[test]
fn parse_command_strips_prefixes_and_splits_words() {
    assert_eq!(parse_command("!hi"), Some(vec!["hi"]));
    assert_eq!(parse_command("!!!look  at\tme "), Some(vec!["look", "at", "me"]));
    assert_eq!(parse_command("irk: give bob coin"), Some(vec!["give", "bob", "coin"]));
    assert_eq!(parse_command("irk,irk,hi"), Some(vec!["hi"]));
    assert_eq!(parse_command("hello there"), None);
    assert_eq!(parse_command("irk hi"), None);
    assert_eq!(parse_command("!"), Some(vec![]));
}

#[test]
fn hi_greets_the_speaker() {
    let (items, characters) = room(&["alice"]);
    assert_eq!(hi("alice", &vec![], &items, &characters), "Hi alice!");
}

#[test]
fn get_item_name_joins_with_spaces() {
    assert_eq!(get_item_name(&["shiny", "red", "rock"]), "shiny red rock");
    assert_eq!(get_item_name(&["rock"]), "rock");
    assert_eq!(get_item_name(&[]), "");
}

#[test]
fn remove_ownership_suffixes_strips_every_trailing_possessive() {
    let mut tokens = vec!["bob's", "rock", "x's's", "'s", "boss"];
    remove_ownership_suffixes(&mut tokens);
    assert_eq!(tokens, vec!["bob", "rock", "x", "", "boss"]);
}

#[test]
fn roll_call_adds_newcomers_with_coins_and_forgets_leavers() {
    let mut characters = Characters::new();
    update_characters(&users(&["alice", "bob", "", "alice"]), &mut characters);
    assert_eq!(characters.len(), 2);
    assert_eq!(characters.at(0).name, "alice");
    assert_eq!(characters.at(1).name, "bob");
    assert_eq!(characters.at(0).description, "an average shitposter");
    assert_eq!(count_of(&characters, "bob", "shit coin"), Some(100));

    let mut items = starting_items();
    assert_eq!(reply("bob", "!I am tall", &mut items, &mut characters), "bob, I agree completely.");
    update_characters(&users(&["bob", "carol"]), &mut characters);
    assert_eq!(characters.len(), 2);
    assert!(characters.get("alice").is_none());
    assert_eq!(characters.get("bob").unwrap().description, "tall");
    assert_eq!(characters.get("carol").unwrap().description, "an average shitposter");
    assert_eq!(count_of(&characters, "carol", "shit coin"), Some(100));
}

#[test]
fn look_lists_the_room() {
    let (items, characters) = room(&["alice", "bob"]);
    assert_eq!(look("alice", &vec![], &items, &characters), "I see alice, bob");
    let empty = Characters::new();
    assert_eq!(look("alice", &vec![], &items, &empty), "I see nobody!");
}

#[test]
fn look_describes_people() {
    let (items, characters) = room(&["alice", "bob"]);
    let expected_me = "alice, you are an average shitposter. You have on your person: 100 shit coin";
    assert_eq!(look("alice", &vec!["at", "me"], &items, &characters), expected_me);
    assert_eq!(look("alice", &vec!["myself"], &items, &characters), expected_me);
    assert_eq!(look("alice", &vec!["at", "alice"], &items, &characters), expected_me);
    assert_eq!(
        look("alice", &vec!["at", "bob"], &items, &characters),
        "bob is an average shitposter. They have on their person: 100 shit coin"
    );
    assert_eq!(
        look("alice", &vec!["at", "irken"], &items, &characters),
        "Do I know myself? Who am I, really!"
    );
    assert_eq!(
        look("alice", &vec!["at", "zed"], &items, &characters),
        "I don't know this strange person?"
    );
    assert_eq!(look("zed", &vec!["at", "me"], &items, &characters), "Who the hell are you?");
    assert_eq!(look("alice", &vec!["at"], &items, &characters), "Look at what, alice?");
}

#[test]
fn look_at_character_phrases_each_stack() {
    let mut inventory = Inventory::single("apple".to_string(), 1);
    inventory.add_piece("pear");
    inventory.add_piece("pear");
    inventory.add_piece("fig");
    let c = Character {
        name: "irken".to_string(),
        description: "a bot".to_string(),
        inventory,
    };
    assert_eq!(
        look_at_character(&c, Subject::Bot),
        "I am a bot. I have on my person: an apple, 2 pear, and a fig"
    );
    let bare = Character {
        name: "zed".to_string(),
        description: "quiet".to_string(),
        inventory: Inventory::new(),
    };
    assert_eq!(look_at_character(&bare, Subject::Other), "zed is quiet. They have nothing to their name!");
    assert_eq!(
        look_at_character(&bare, Subject::Speaker),
        "zed, you are quiet. You have nothing to your name!"
    );
    assert_eq!(look_at_character(&bare, Subject::Bot), "I am quiet. I have nothing to my name!");
}

#[test]
fn look_at_inventory_item_phrases() {
    let item = Item {
        name: "rock".to_string(),
        description: "grey".to_string(),
        creator_name: "alice".to_string(),
    };
    assert_eq!(
        look_at_inventory_item(&item, 1, Subject::Speaker),
        "Your rock is grey. It was crafted with love by alice."
    );
    assert_eq!(
        look_at_inventory_item(&item, 3, Subject::Other),
        "Their rock are grey. It was crafted with love by alice."
    );
    assert_eq!(
        look_at_inventory_item(&item, 12345678901, Subject::Bot),
        "My rock are grey. It was crafted with love by alice."
    );
}

#[test]
fn make_then_look_at_owned_items() {
    let (mut items, mut characters) = room(&["alice", "bob"]);
    assert_eq!(
        reply("alice", "!make a shiny rock", &mut items, &mut characters),
        "A sparkle of light, and it is done!"
    );
    assert_eq!(count_of(&characters, "alice", "shiny rock"), Some(1));
    let rock = items.get("shiny rock").unwrap();
    assert_eq!(rock.creator_name, "alice");
    assert_eq!(rock.description, "mysterious");
    assert_eq!(
        reply("alice", "!look at my shiny rock", &mut items, &mut characters),
        "Your shiny rock is mysterious. It was crafted with love by alice."
    );
    assert_eq!(
        reply("bob", "!look at alice's shiny rocks", &mut items, &mut characters),
        "Their shiny rock is mysterious. It was crafted with love by alice."
    );
    assert_eq!(
        reply("bob", "!look at my shiny rock", &mut items, &mut characters),
        "Sorry, get what now?"
    );
    assert_eq!(
        reply("bob", "!look at alice's gold", &mut items, &mut characters),
        "Sorry, what item?"
    );
    assert_eq!(reply("bob", "!look at zed's gold", &mut items, &mut characters), "Who?");
    assert_eq!(
        reply("alice", "irk: craft some shiny rock", &mut items, &mut characters),
        "A sparkle of light, and it is done!"
    );
    assert_eq!(
        reply("alice", "!look at my shiny rocks", &mut items, &mut characters),
        "Your shiny rock are mysterious. It was crafted with love by alice."
    );
    assert_eq!(
        reply("bob", "!look at shiny rock", &mut items, &mut characters),
        "shiny rock is mysterious. It was crafted with love by alice."
    );
}

#[test]
fn look_at_an_item() {
    let (mut items, mut characters) = room(&["alice", "bob"]);
    reply("alice", "!make a hat", &mut items, &mut characters);
    let expected = "hat is mysterious. It was crafted with love by alice.";
    assert_eq!(reply("bob", "!look at hat", &mut items, &mut characters), expected);
    assert_eq!(reply("bob", "!look hats", &mut items, &mut characters), expected);
    assert_eq!(
        reply("bob", "!look at unicorn", &mut items, &mut characters),
        "I don't know this strange person?"
    );
    assert_eq!(
        look("bob", &vec!["at", "shit", "coin"], &items, &characters),
        "shit coin is finely crafted, of the highest quality. It was crafted with love by GOD ALMIGHTY."
    );
    reply("alice", "!make a bob", &mut items, &mut characters);
    assert_eq!(
        reply("alice", "!look at bob", &mut items, &mut characters),
        "bob is an average shitposter. They have on their person: 100 shit coin"
    );
    assert_eq!(look("alice", &vec!["at", "zed", "hat"], &items, &characters), "Who?");
}

#[test]
fn make_refusals() {
    let (mut items, mut characters) = room(&["alice", "bob"]);
    let before_items = items.len();
    assert_eq!(make("alice", &vec!["rock"], &mut items, &mut characters), "ESPANOL ES NO MIO.");
    assert_eq!(
        make("alice", &vec!["5", "rocks"], &mut items, &mut characters),
        "You can't make more than one item at a time, dweeb."
    );
    assert_eq!(
        make("alice", &vec!["-12", "rocks"], &mut items, &mut characters),
        "You can't make more than one item at a time, dweeb."
    );
    assert_eq!(
        make("alice", &vec!["+7", "rocks"], &mut items, &mut characters),
        "You can't make more than one item at a time, dweeb."
    );
    assert_eq!(
        make("alice", &vec!["99999999999999999999", "rocks"], &mut items, &mut characters),
        "A sparkle of light, and it is done!"
    );
    assert_eq!(
        make("alice", &vec!["a", "shit", "coin"], &mut items, &mut characters),
        "You can't create a shit coin! That's COUNTERFIETING!."
    );
    assert_eq!(
        create("bob", &vec!["99999999999999999999", "rocks"], &mut items, &mut characters),
        "You can't create a 99999999999999999999 rocks! That's COPYRIGHT INFRINGEMENT on alice!"
    );
    assert_eq!(
        craft("zed", &vec!["a", "hat"], &mut items, &mut characters),
        "Who ARE you?!"
    );
    assert_eq!(items.len(), before_items + 1);
    assert_eq!(total(&characters, "shit coin"), 200);
}

#[test]
fn remaking_renews_the_description() {
    let (mut items, mut characters) = room(&["alice"]);
    reply("alice", "!make a hat", &mut items, &mut characters);
    assert_eq!(
        reply("alice", "!a hat is very tall", &mut items, &mut characters),
        "Interesting. hat have always fascinated me, alice."
    );
    assert_eq!(items.get("hat").unwrap().description, "very tall");
    reply("alice", "!make a hat", &mut items, &mut characters);
    assert_eq!(items.get("hat").unwrap().description, "mysterious");
    assert_eq!(count_of(&characters, "alice", "hat"), Some(2));
}

#[test]
fn describe_item_refusals() {
    let (mut items, mut characters) = room(&["alice", "bob"]);
    assert_eq!(describe_item("alice", &vec!["hat", "is"], &mut items, &characters), "is wat.");
    assert_eq!(
        describe_item("alice", &vec!["hat", "was", "big"], &mut items, &characters),
        "alice, stop making retarded item names."
    );
    assert_eq!(
        describe_item("alice", &vec!["is", "is", "big"], &mut items, &characters),
        "alice, stop making retarded item names."
    );
    assert_eq!(
        a("alice", &vec!["red", "hat", "is", "big"], &mut items, &characters),
        "that's bullshit."
    );
    assert_eq!(
        an("alice", &vec!["shit", "coin", "is", "shiny", "and", "round"], &mut items, &characters),
        "You can't describe a shit coin! It was made by GOD ALMIGHTY."
    );
    assert_eq!(
        items.get("shit coin").unwrap().description,
        "finely crafted, of the highest quality"
    );
    reply("bob", "!make a red hat", &mut items, &mut characters);
    assert_eq!(
        a("alice", &vec!["red", "hat", "is", "mine"], &mut items, &characters),
        "You can't describe a red hat! It was made by bob."
    );
    reply("bob", "!give alice red hat", &mut items, &mut characters);
    assert_eq!(
        a("bob", &vec!["red", "hat", "is", "lost"], &mut items, &characters),
        "pls, you don't even HAVE a red hat!"
    );
    assert_eq!(items.get("red hat").unwrap().description, "mysterious");
    reply("alice", "!give bob red hat", &mut items, &mut characters);
    assert_eq!(
        describe_item("bob", &vec!["red", "hat", "is"], &mut items, &characters),
        "Interesting. red hat have always fascinated me, bob."
    );
    assert_eq!(items.get("red hat").unwrap().description, "");
}

#[test]
fn describing_yourself() {
    let (items, mut characters) = room(&["alice"]);
    assert_eq!(
        I("zed", &vec!["am", "cool"], &items, &mut characters),
        "YOU. ARE. NOT. WORTHY. ALSO THIS IS A BUG."
    );
    assert_eq!(I("alice", &vec![], &items, &mut characters), "YOU.");
    assert_eq!(I("alice", &vec!["am"], &items, &mut characters), "YOU IS WHAT.");
    assert_eq!(
        I("alice", &vec!["AM", "I", "am"], &items, &mut characters),
        "WHAT IS YOU SAY MOTHER FUCKER."
    );
    assert_eq!(characters.get("alice").unwrap().description, "an average shitposter");
    assert_eq!(
        I("alice", &vec!["am", "a", "cool", "cat"], &items, &mut characters),
        "alice, I agree completely."
    );
    assert_eq!(characters.get("alice").unwrap().description, "a cool cat");
}

#[test]
fn give_moves_one_piece() {
    let (mut items, mut characters) = room(&["alice", "bob"]);
    reply("alice", "!make a shiny rock", &mut items, &mut characters);
    assert_eq!(reply("alice", "!give bob my shiny rock", &mut items, &mut characters), "Done!");
    assert_eq!(count_of(&characters, "alice", "shiny rock"), None);
    assert_eq!(count_of(&characters, "bob", "shiny rock"), Some(1));
    assert_eq!(
        reply("alice", "!look at bob", &mut items, &mut characters),
        "bob is an average shitposter. They have on their person: 100 shit coin, and a shiny rock"
    );
    assert_eq!(reply("bob", "!give alice a shit coin", &mut items, &mut characters), "Done!");
    assert_eq!(count_of(&characters, "bob", "shit coin"), Some(99));
    assert_eq!(count_of(&characters, "alice", "shit coin"), Some(101));
    assert_eq!(reply("bob", "!give bob shit coin", &mut items, &mut characters), "Done!");
    assert_eq!(count_of(&characters, "bob", "shit coin"), Some(99));
    assert_eq!(total(&characters, "shit coin"), 200);
    assert_eq!(total(&characters, "shiny rock"), 1);
}

#[test]
fn give_item_to_person() {
    let (mut items, mut characters) = room(&["alice", "bob"]);
    reply("alice", "!make an apple", &mut items, &mut characters);
    assert_eq!(reply("alice", "!give my apple to bob", &mut items, &mut characters), "Done!");
    assert_eq!(count_of(&characters, "alice", "apple"), None);
    assert_eq!(count_of(&characters, "bob", "apple"), Some(1));
    assert_eq!(reply("bob", "!give a shit coin to alice", &mut items, &mut characters), "Done!");
    assert_eq!(count_of(&characters, "bob", "shit coin"), Some(99));
    assert_eq!(count_of(&characters, "alice", "shit coin"), Some(101));
    assert_eq!(
        reply("bob", "!give apple to zed", &mut items, &mut characters),
        "bob: the fuck is a apple?"
    );
    assert_eq!(total(&characters, "shit coin"), 200);
    assert_eq!(total(&characters, "apple"), 1);
}

#[test]
fn give_refusals() {
    let (mut items, mut characters) = room(&["alice", "bob"]);
    assert_eq!(give("alice", &vec!["my", "bob"], &items, &mut characters), "POR QUE ENGLAISE.");
    assert_eq!(
        give("alice", &vec!["unicorn", "to", "bob"], &items, &mut characters),
        "Don't start making shit up alice, unicorn don't exist."
    );
    assert_eq!(
        give("alice", &vec!["shit", "coin", "to", "me"], &items, &mut characters),
        "Fuck you, get your own shit coin."
    );
    assert_eq!(
        give("alice", &vec!["shit", "coin", "to"], &items, &mut characters),
        "alice: the fuck is a shit coin?"
    );
    assert_eq!(
        give("alice", &vec!["bob", "unicorn"], &items, &mut characters),
        "Don't start making shit up alice, unicorn don't exist."
    );
    assert_eq!(
        give("alice", &vec!["me", "shit", "coin"], &items, &mut characters),
        "Fuck you, get your own shit coin."
    );
    assert_eq!(give("zed", &vec!["bob", "shit", "coin"], &items, &mut characters), "zed: who?");
    reply("bob", "!make a hat", &mut items, &mut characters);
    assert_eq!(
        give("alice", &vec!["bob", "hat"], &items, &mut characters),
        "pls, you don't even HAVE a hat!"
    );
    assert_eq!(
        give("alice", &vec!["zed", "shit", "coin"], &items, &mut characters),
        "alice: the fuck is a shit coin?"
    );
    characters.push(Character {
        name: "rich".to_string(),
        description: "loaded".to_string(),
        inventory: Inventory::single("shit coin".to_string(), u64::MAX),
    });
    assert_eq!(
        give("alice", &vec!["rich", "shit", "coin"], &items, &mut characters),
        "rich can't hold all of these shit coin!"
    );
    assert_eq!(count_of(&characters, "alice", "shit coin"), Some(100));
}

#[test]
fn overflowing_make_is_detected() {
    let (mut items, mut characters) = room(&["alice"]);
    characters.push(Character {
        name: "rich".to_string(),
        description: "loaded".to_string(),
        inventory: Inventory::single("hat".to_string(), u64::MAX),
    });
    let words = parse_command("!make a hat").unwrap();
    assert!(dispatch_would_overflow("rich", &words, &items, &characters));
    assert!(!dispatch_would_overflow("alice", &words, &items, &characters));
    assert!(make_would_overflow("rich", &vec!["a", "hat"], &items, &characters));
    reply("alice", "!make a hat", &mut items, &mut characters);
    assert!(!make_would_overflow("rich", &vec!["a", "hat"], &items, &characters));
}

#[test]
fn unfinished_commands_and_quit() {
    let (mut items, mut characters) = room(&["alice"]);
    assert_eq!(equip("alice", &vec!["hat"], &items, &characters), "Unimplemented");
    assert_eq!(bid("alice", &vec!["hat"], &items, &characters), "Unimplemented");
    assert!(matches!(quit("alice", &vec![], &items, &characters), Outcome::Quit));
    assert!(matches!(run("alice", "!quit", &mut items, &mut characters), Outcome::Quit));
    assert!(matches!(run("alice", "!dance", &mut items, &mut characters), Outcome::Ignore));
    assert_eq!(reply("alice", "irk,bid", &mut items, &mut characters), "Unimplemented");
}

#[test]
fn queries_leave_the_world_unchanged() {
    let (mut items, mut characters) = room(&["alice", "bob"]);
    reply("alice", "!make a hat", &mut items, &mut characters);
    for msg in ["!hi", "!look", "!look at bob", "!look at my hat", "!equip hat", "!bid hat", "!dance"] {
        run("alice", msg, &mut items, &mut characters);
        assert_eq!(items.len(), 2);
        assert_eq!(items.get("hat").unwrap().description, "mysterious");
        assert_eq!(characters.len(), 2);
        assert_eq!(count_of(&characters, "alice", "hat"), Some(1));
        assert_eq!(total(&characters, "shit coin"), 200);
        assert_eq!(characters.get("alice").unwrap().description, "an average shitposter");
    }
}

#[test]
fn create_and_craft_do_what_make_does() {
    for word in ["create", "craft"] {
        let (mut items_a, mut chars_a) = room(&["alice", "bob"]);
        let (mut items_b, mut chars_b) = room(&["alice", "bob"]);
        for rest in ["a hat", "a hat", "shit coin", "3 hats", "x"] {
            let with_make = reply("alice", &format!("!make {}", rest), &mut items_a, &mut chars_a);
            let with_word = reply("alice", &format!("!{} {}", word, rest), &mut items_b, &mut chars_b);
            assert_eq!(with_make, with_word);
            assert_eq!(items_a.len(), items_b.len());
            assert_eq!(count_of(&chars_a, "alice", "hat"), count_of(&chars_b, "alice", "hat"));
        }
        assert_eq!(count_of(&chars_b, "alice", "hat"), Some(2));
        assert!(matches!(run("bob", "!quit", &mut items_b, &mut chars_b), Outcome::Quit));
        assert_eq!(items_b.len(), 2);
    }
}

//! The commands that people in the room can give the bot, and what each one
//! answers and changes in the world.
use vstd::prelude::*;
use crate::text::{
    decimal, has_prefix, is_isize_literal, join, parses_as_isize, push_decimal, starts_with,
    str_eq, str_views, strip_suffixes, trim, trim_end_matches, trim_ws,
};
use crate::world::{
    Character, CharacterView, Characters, Inventory, Item, ItemView, Items, StackView, add_piece,
    character_index, character_named, count_in, has_character, has_item, holds,
    describe_in, item_named, lemma_named_character_wf, lemma_remove_piece_count,
    put_item, remove_piece,
};

verus! {

/// The name under which the bot itself appears in the room.
pub open spec fn bot_name() -> Seq<char> {
    "irken"@
}

/// The currency that every newcomer receives and that nobody can make.
pub open spec fn coin_name() -> Seq<char> {
    "shit coin"@
}

/// How many coins a newcomer receives.
pub open spec fn starting_coin_count() -> u64 {
    100
}

/// Whom a sentence speaks of: the one who asked, someone else, or the bot.
#[derive(Debug, Clone, Copy, PartialEq, Eq, Structural)]
pub enum Subject {
    Speaker,
    Other,
    Bot,
}

/// The name of an item: the words joined by single spaces.
pub open spec fn item_name_of(words: Seq<Seq<char>>) -> Seq<char> {
    join(words, " "@)
}

/// The words of `ws` that are not in `stop`, in order.
pub open spec fn keep_words(ws: Seq<Seq<char>>, stop: Seq<Seq<char>>) -> Seq<Seq<char>>
    decreases ws.len(),
{
    if ws.len() == 0 {
        ws
    } else if stop.contains(ws.last()) {
        keep_words(ws.drop_last(), stop)
    } else {
        keep_words(ws.drop_last(), stop).push(ws.last())
    }
}

/// The position of the first `w` in `ws`, or -1 where there is none.
pub open spec fn first_index_of(ws: Seq<Seq<char>>, w: Seq<char>) -> int
    decreases ws.len(),
{
    if ws.len() == 0 {
        -1
    } else {
        let p = first_index_of(ws.drop_last(), w);
        if p >= 0 {
            p
        } else if ws.last() == w {
            ws.len() - 1
        } else {
            -1
        }
    }
}

/// The position of the first `w` in `ws`, or 0 where there is none.
pub open spec fn position_or_zero(ws: Seq<Seq<char>>, w: Seq<char>) -> int {
    let p = first_index_of(ws, w);
    if p >= 0 {
        p
    } else {
        0
    }
}

// ---------------------------------------------------------------- hi

pub open spec fn hi_reply(source: Seq<char>) -> Seq<char> {
    "Hi "@ + source + "!"@
}

// ---------------------------------------------------------------- look

/// How many pieces a phrase names: "a" or "an" for one, else the number.
pub open spec fn count_words(name: Seq<char>, count: u64) -> Seq<char> {
    if count == 1 {
        if has_prefix(name, "a"@) {
            "an"@
        } else {
            "a"@
        }
    } else {
        decimal(count as nat)
    }
}

/// The phrase for the stack at position `i` of `inv` in a list of all stacks.
pub open spec fn stack_phrase(inv: Seq<StackView>, i: int) -> Seq<char> {
    let n = inv.len();
    (if n > 1 && i == n - 1 {
        "and "@
    } else {
        Seq::<char>::empty()
    }) + count_words(inv[i].0, inv[i].1) + " "@ + inv[i].0 + (if i == n - 1 {
        Seq::<char>::empty()
    } else {
        ", "@
    })
}

/// The phrases of the first `k` stacks of `inv`, one after the other.
pub open spec fn stack_phrases(inv: Seq<StackView>, k: int) -> Seq<char>
    decreases k,
{
    if k <= 0 {
        Seq::empty()
    } else {
        stack_phrases(inv, k - 1) + stack_phrase(inv, k - 1)
    }
}

/// What the bot says of a character.
pub open spec fn character_text(c: CharacterView, subject: Subject) -> Seq<char> {
    let segway = match subject {
        Subject::Speaker => c.name + ", you are "@,
        Subject::Other => c.name + " is "@,
        Subject::Bot => "I am "@,
    };
    let inventory = if c.inventory.len() > 0 {
        (match subject {
            Subject::Speaker => "You have on your person: "@,
            Subject::Other => "They have on their person: "@,
            Subject::Bot => "I have on my person: "@,
        }) + stack_phrases(c.inventory, c.inventory.len() as int)
    } else {
        match subject {
            Subject::Speaker => "You have nothing to your name!"@,
            Subject::Other => "They have nothing to their name!"@,
            Subject::Bot => "I have nothing to my name!"@,
        }
    };
    segway + c.description + ". "@ + inventory
}

/// What the bot says of an item that someone carries `count` pieces of.
pub open spec fn owned_item_text(item: ItemView, count: u64, subject: Subject) -> Seq<char> {
    let ownership = match subject {
        Subject::Speaker => "Your"@,
        Subject::Other => "Their"@,
        Subject::Bot => "My"@,
    };
    ownership + " "@ + item.name + " "@ + (if count == 1 {
        "is"@
    } else {
        "are"@
    }) + " "@ + item.description + ". It was crafted with love by "@ + item.creator_name + "."@
}

/// The names of the characters, in order.
pub open spec fn names_of(cs: Seq<CharacterView>) -> Seq<Seq<char>> {
    cs.map_values(|c: CharacterView| c.name)
}

/// Whom the owner word of `look` speaks of.
pub open spec fn owner_subject(word: Seq<char>) -> Subject {
    if word == "my"@ {
        Subject::Speaker
    } else if word == bot_name() {
        Subject::Bot
    } else {
        Subject::Other
    }
}

/// The item that `look` finds under `name`, or else under `name` without its
/// trailing `s`s.
pub open spec fn item_or_plural(items: Seq<ItemView>, name: Seq<char>) -> Option<ItemView> {
    if has_item(items, name) {
        item_named(items, name)
    } else {
        item_named(items, strip_suffixes(name, "s"@))
    }
}

/// How many pieces `look` finds under `name`, or else under `name` without
/// its trailing `s`s.
pub open spec fn count_or_plural(inv: Seq<StackView>, name: Seq<char>) -> Option<u64> {
    if holds(inv, name) {
        count_in(inv, name)
    } else {
        count_in(inv, strip_suffixes(name, "s"@))
    }
}

/// What the bot says of an item that nobody in particular is said to carry.
pub open spec fn item_text(item: ItemView) -> Seq<char> {
    item.name + " is "@ + item.description + ". It was crafted with love by "@ + item.creator_name
        + "."@
}

/// The answer to `look` at an item that `owner_word` (a name, or "my") carries.
/// Where nobody goes by the owner's name, the words `whole` name the item
/// itself.
pub open spec fn look_owned_reply(
    source: Seq<char>,
    owner_word: Seq<char>,
    item_name: Seq<char>,
    whole: Seq<char>,
    items: Seq<ItemView>,
    cs: Seq<CharacterView>,
) -> Seq<char> {
    let owner = if owner_word == "my"@ {
        source
    } else {
        owner_word
    };
    match character_named(cs, owner) {
        None => match item_or_plural(items, whole) {
            Some(it) => item_text(it),
            None => "Who?"@,
        },
        Some(c) => match item_or_plural(items, item_name) {
            None => "Sorry, what item?"@,
            Some(it) => match count_or_plural(c.inventory, item_name) {
                None => "Sorry, get what now?"@,
                Some(n) => owned_item_text(it, n, owner_subject(owner_word)),
            },
        },
    }
}

/// The answer to `look` at the person, or else the item, `who`.
pub open spec fn look_person_reply(
    source: Seq<char>,
    who: Seq<char>,
    items: Seq<ItemView>,
    cs: Seq<CharacterView>,
) -> Seq<char> {
    if who == "me"@ || who == "myself"@ || who == source {
        match character_named(cs, source) {
            Some(c) => character_text(c, Subject::Speaker),
            None => "Who the hell are you?"@,
        }
    } else if who == bot_name() {
        match character_named(cs, who) {
            Some(c) => character_text(c, Subject::Bot),
            None => "Do I know myself? Who am I, really!"@,
        }
    } else {
        match character_named(cs, who) {
            Some(c) => character_text(c, Subject::Other),
            None => match item_or_plural(items, who) {
                Some(it) => item_text(it),
                None => "I don't know this strange person?"@,
            },
        }
    }
}

/// The answer to `look` with the words `args`.
pub open spec fn look_reply(
    source: Seq<char>,
    args: Seq<Seq<char>>,
    items: Seq<ItemView>,
    cs: Seq<CharacterView>,
) -> Seq<char> {
    if args.len() == 0 {
        "I see "@ + if cs.len() > 0 {
            join(names_of(cs), ", "@)
        } else {
            "nobody!"@
        }
    } else {
        let n: int = if args[0] == "at"@ {
            1
        } else {
            0
        };
        if args.len() <= n {
            "Look at what, "@ + source + "?"@
        } else if args.len() > n + 1 {
            look_owned_reply(
                source,
                args[n],
                item_name_of(args.skip(n + 1)),
                item_name_of(args.skip(n)),
                items,
                cs,
            )
        } else {
            look_person_reply(source, args[n], items, cs)
        }
    }
}

// ---------------------------------------------------------------- shared

/// The words of `args` from position `start` on.
pub fn words_from<'a>(args: &Vec<&'a str>, start: usize) -> (r: Vec<&'a str>)
    requires
        start <= args@.len(),
    ensures
        r@ == args@.skip(start as int),
        str_views(r@) == str_views(args@).skip(start as int),
{
    let mut r: Vec<&'a str> = Vec::new();
    let mut i: usize = start;
    while i < args.len()
        invariant
            start <= i <= args@.len(),
            r@ == args@.subrange(start as int, i as int),
        decreases args.len() - i,
    {
        r.push(args[i]);
        i = i + 1;
        assert(r@ =~= args@.subrange(start as int, i as int));
    }
    assert(r@ =~= args@.skip(start as int));
    assert(str_views(r@) =~= str_views(args@).skip(start as int));
    r
}

/// The words of `args` before position `end`.
pub fn words_before<'a>(args: &Vec<&'a str>, end: usize) -> (r: Vec<&'a str>)
    requires
        end <= args@.len(),
    ensures
        r@ == args@.take(end as int),
        str_views(r@) == str_views(args@).take(end as int),
{
    let mut r: Vec<&'a str> = Vec::new();
    let mut i: usize = 0;
    while i < end
        invariant
            i <= end <= args@.len(),
            r@ == args@.take(i as int),
        decreases end - i,
    {
        r.push(args[i]);
        i = i + 1;
        assert(r@ =~= args@.take(i as int));
    }
    assert(str_views(r@) =~= str_views(args@).take(end as int));
    r
}

/// The name of an item that several words write: the words joined by single
/// spaces.
pub fn get_item_name(args: &[&str]) -> (r: String)
    ensures
        r@ == item_name_of(str_views(args@)),
{
    let mut item_name = String::new();
    let ghost ws = str_views(args@);
    let mut i: usize = 0;
    assert(ws.take(0) =~= Seq::<Seq<char>>::empty());
    while i < args.len()
        invariant
            i <= args@.len(),
            ws == str_views(args@),
            item_name@ == join(ws.take(i as int), " "@),
        decreases args.len() - i,
    {
        if i > 0 {
            item_name.append(" ");
        }
        item_name.append(args[i]);
        assert(ws.take(i + 1).drop_last() =~= ws.take(i as int));
        assert(ws[i as int] == args@[i as int]@);
        if i == 0 {
            assert(item_name@ =~= join(ws.take(i + 1), " "@));
        }
        i = i + 1;
    }
    assert(ws.take(args@.len() as int) =~= ws);
    item_name
}

// ---------------------------------------------------------------- hi

/// Greets the speaker.
pub fn hi(source_nickname: &str, args: &Vec<&str>, items: &Items, characters: &Characters) -> (r:
    String)
    ensures
        r@ == hi_reply(source_nickname@),
{
    let mut r = String::new();
    r.append("Hi ");
    r.append(source_nickname);
    r.append("!");
    r
}

// ---------------------------------------------------------------- look

/// What the bot says of a character.
pub fn look_at_character(character: &Character, subject: Subject) -> (r: String)
    ensures
        r@ == character_text(character@, subject),
{
    let mut s = String::new();
    match subject {
        Subject::Speaker => {
            s.append(character.name.as_str());
            s.append(", you are ");
        },
        Subject::Other => {
            s.append(character.name.as_str());
            s.append(" is ");
        },
        Subject::Bot => {
            s.append("I am ");
        },
    }
    s.append(character.description.as_str());
    s.append(". ");
    let n = character.inventory.len();
    let ghost inv = character@.inventory;
    if n > 0 {
        match subject {
            Subject::Speaker => {
                s.append("You have on your person: ");
            },
            Subject::Other => {
                s.append("They have on their person: ");
            },
            Subject::Bot => {
                s.append("I have on my person: ");
            },
        }
        let ghost head = s@;
        let mut i: usize = 0;
        assert(s@ =~= head + stack_phrases(inv, 0));
        while i < n
            invariant
                n == inv.len(),
                inv == character@.inventory,
                i <= n,
                s@ == head + stack_phrases(inv, i as int),
            decreases n - i,
        {
            let ghost before = s@;
            let (name, count) = character.inventory.stack(i);
            if n > 1 && i == n - 1 {
                s.append("and ");
            }
            if count == 1 {
                if starts_with(name.as_str(), "a") {
                    s.append("an");
                } else {
                    s.append("a");
                }
            } else {
                push_decimal(&mut s, count);
            }
            s.append(" ");
            s.append(name.as_str());
            if i != n - 1 {
                s.append(", ");
            }
            assert(s@ =~= before + stack_phrase(inv, i as int));
            i = i + 1;
        }
    } else {
        match subject {
            Subject::Speaker => {
                s.append("You have nothing to your name!");
            },
            Subject::Other => {
                s.append("They have nothing to their name!");
            },
            Subject::Bot => {
                s.append("I have nothing to my name!");
            },
        }
    }
    assert(s@ =~= character_text(character@, subject));
    s
}

/// What the bot says of an item that someone carries `item_count` pieces of.
pub fn look_at_inventory_item(item: &Item, item_count: u64, subject: Subject) -> (r: String)
    ensures
        r@ == owned_item_text(item@, item_count, subject),
{
    let mut s = String::new();
    match subject {
        Subject::Speaker => {
            s.append("Your");
        },
        Subject::Other => {
            s.append("Their");
        },
        Subject::Bot => {
            s.append("My");
        },
    }
    s.append(" ");
    s.append(item.name.as_str());
    s.append(" ");
    if item_count == 1 {
        s.append("is");
    } else {
        s.append("are");
    }
    s.append(" ");
    s.append(item.description.as_str());
    s.append(". It was crafted with love by ");
    s.append(item.creator_name.as_str());
    s.append(".");
    assert(s@ =~= owned_item_text(item@, item_count, subject));
    s
}

/// What the bot says of an item that nobody in particular is said to carry.
pub fn look_at_item(item: &Item) -> (r: String)
    ensures
        r@ == item_text(item@),
{
    let mut s = String::new();
    s.append(item.name.as_str());
    s.append(" is ");
    s.append(item.description.as_str());
    s.append(". It was crafted with love by ");
    s.append(item.creator_name.as_str());
    s.append(".");
    assert(s@ =~= item_text(item@));
    s
}

/// The item named `name`, or else named `name` without its trailing `s`s.
pub fn get_item_or_plural<'a>(items: &'a Items, name: &str) -> (r: Option<&'a Item>)
    ensures
        r is None <==> item_or_plural(items@, name@) is None,
        r matches Some(it) ==> item_or_plural(items@, name@) == Some(it@),
{
    match items.get(name) {
        Some(it) => Some(it),
        None => items.get(trim_end_matches(name, "s")),
    }
}

/// Describes the room, a person in it, or an item.
///
/// `look` lists everyone; `look [at] <person>` describes a person (`me` or
/// `myself` for the speaker); `look [at] <owner> <item>` describes an item
/// that the owner (`my` for the speaker) carries; `look [at] <item>` describes
/// an item where no person goes by its name.
pub fn look(source_nickname: &str, args: &Vec<&str>, items: &Items, characters: &Characters) -> (r:
    String)
    ensures
        r@ == look_reply(source_nickname@, str_views(args@), items@, characters@),
{
    if args.len() == 0 {
        let mut s = String::new();
        s.append("I see ");
        let n = characters.len();
        if n > 0 {
            let ghost names = names_of(characters@);
            let ghost head = s@;
            let mut i: usize = 0;
            assert(names.take(0) =~= Seq::<Seq<char>>::empty());
            while i < n
                invariant
                    n == characters@.len(),
                    names == names_of(characters@),
                    i <= n,
                    s@ == head + join(names.take(i as int), ", "@),
                decreases n - i,
            {
                if i > 0 {
                    s.append(", ");
                }
                s.append(characters.at(i).name.as_str());
                assert(names.take(i + 1).drop_last() =~= names.take(i as int));
                assert(names[i as int] == characters@[i as int].name);
                if i == 0 {
                    assert(join(names.take(1), ", "@) == names[0]);
                }
                assert(s@ =~= head + join(names.take(i + 1), ", "@));
                i = i + 1;
            }
            assert(names.take(n as int) =~= names);
        } else {
            s.append("nobody!");
        }
        return s;
    }
    let noun_start_index: usize = if str_eq(args[0], "at") {
        1
    } else {
        0
    };
    if args.len() <= noun_start_index {
        let mut s = String::new();
        s.append("Look at what, ");
        s.append(source_nickname);
        s.append("?");
        return s;
    }
    let noun = args[noun_start_index];
    if args.len() > noun_start_index + 1 {
        let rest = words_from(args, noun_start_index + 1);
        let item_name = get_item_name(rest.as_slice());
        let is_my = str_eq(noun, "my");
        let character_name = if is_my {
            source_nickname
        } else {
            noun
        };
        let character = match characters.get(character_name) {
            Some(c) => c,
            None => {
                let whole_words = words_from(args, noun_start_index);
                let whole = get_item_name(whole_words.as_slice());
                return match get_item_or_plural(items, whole.as_str()) {
                    Some(it) => look_at_item(it),
                    None => String::from_str("Who?"),
                };
            },
        };
        let plural = trim_end_matches(item_name.as_str(), "s");
        let item = match get_item_or_plural(items, item_name.as_str()) {
            Some(it) => it,
            None => {
                return String::from_str("Sorry, what item?");
            },
        };
        let item_count = match character.inventory.get(item_name.as_str()) {
            Some(c) => c,
            None => match character.inventory.get(plural) {
                Some(c) => c,
                None => {
                    return String::from_str("Sorry, get what now?");
                },
            },
        };
        let subject = if is_my {
            Subject::Speaker
        } else if str_eq(noun, "irken") {
            Subject::Bot
        } else {
            Subject::Other
        };
        proof {
            reveal_strlit("irken");
        }
        return look_at_inventory_item(item, item_count, subject);
    }
    proof {
        reveal_strlit("irken");
    }
    if str_eq(noun, "me") || str_eq(noun, "myself") || str_eq(noun, source_nickname) {
        match characters.get(source_nickname) {
            Some(character) => look_at_character(character, Subject::Speaker),
            None => String::from_str("Who the hell are you?"),
        }
    } else if str_eq(noun, "irken") {
        match characters.get(noun) {
            Some(character) => look_at_character(character, Subject::Bot),
            None => String::from_str("Do I know myself? Who am I, really!"),
        }
    } else {
        match characters.get(noun) {
            Some(character) => look_at_character(character, Subject::Other),
            None => match get_item_or_plural(items, noun) {
                Some(it) => look_at_item(it),
                None => String::from_str("I don't know this strange person?"),
            },
        }
    }
}

/// Whether `w` is one of the words of `stop`.
pub fn is_listed(w: &str, stop: &[&str]) -> (r: bool)
    ensures
        r == str_views(stop@).contains(w@),
{
    let ghost sv = str_views(stop@);
    let mut i: usize = 0;
    while i < stop.len()
        invariant
            i <= stop@.len(),
            sv == str_views(stop@),
            forall|j: int| 0 <= j < i ==> sv[j] != w@,
        decreases stop.len() - i,
    {
        if str_eq(stop[i], w) {
            assert(sv[i as int] == w@);
            return true;
        }
        i = i + 1;
    }
    false
}

/// The words of `args` that are not in `stop`, in order.
pub fn without_words<'a>(args: &Vec<&'a str>, stop: &[&str]) -> (r: Vec<&'a str>)
    ensures
        str_views(r@) == keep_words(str_views(args@), str_views(stop@)),
{
    let ghost ws = str_views(args@);
    let ghost sv = str_views(stop@);
    let mut r: Vec<&'a str> = Vec::new();
    let mut i: usize = 0;
    assert(ws.take(0) =~= Seq::<Seq<char>>::empty());
    assert(str_views(r@) =~= Seq::<Seq<char>>::empty());
    while i < args.len()
        invariant
            i <= args@.len(),
            ws == str_views(args@),
            sv == str_views(stop@),
            str_views(r@) == keep_words(ws.take(i as int), sv),
        decreases args.len() - i,
    {
        let ghost before = r@;
        assert(ws.take(i + 1).drop_last() =~= ws.take(i as int));
        assert(ws.take(i + 1).last() == args@[i as int]@);
        if !is_listed(args[i], stop) {
            r.push(args[i]);
            assert(str_views(r@) =~= str_views(before).push(args@[i as int]@));
        }
        i = i + 1;
    }
    assert(ws.take(args@.len() as int) =~= ws);
    r
}

/// The position of the first `w` in `args`, or 0 where there is none.
pub fn position_of(args: &Vec<&str>, w: &str) -> (r: usize)
    ensures
        r == position_or_zero(str_views(args@), w@),
        r == 0 || r < args@.len(),
{
    let ghost ws = str_views(args@);
    let mut i: usize = 0;
    assert(ws.take(0) =~= Seq::<Seq<char>>::empty());
    while i < args.len()
        invariant
            i <= args@.len(),
            ws == str_views(args@),
            first_index_of(ws.take(i as int), w@) == -1,
        decreases args.len() - i,
    {
        assert(ws.take(i + 1).drop_last() =~= ws.take(i as int));
        assert(ws.take(i + 1).last() == args@[i as int]@);
        if str_eq(args[i], w) {
            proof {
                lemma_first_index_prefix(ws, i as int + 1, w@);
            }
            return i;
        }
        i = i + 1;
    }
    assert(ws.take(args@.len() as int) =~= ws);
    0
}

/// Once a prefix holds `w`, the first `w` of the whole stands where it does in
/// the prefix.
pub proof fn lemma_first_index_prefix(ws: Seq<Seq<char>>, k: int, w: Seq<char>)
    requires
        0 <= k <= ws.len(),
        first_index_of(ws.take(k), w) >= 0,
    ensures
        first_index_of(ws, w) == first_index_of(ws.take(k), w),
    decreases ws.len(),
{
    if k < ws.len() {
        assert(ws.drop_last().take(k) =~= ws.take(k));
        lemma_first_index_prefix(ws.drop_last(), k, w);
    } else {
        assert(ws.take(k) =~= ws);
    }
}

// ---------------------------------------------------------------- make

/// Where the name of the item to make begins: after an article, if any.
pub open spec fn make_noun_start(args: Seq<Seq<char>>) -> int {
    if args[0] == "a"@ || args[0] == "an"@ || args[0] == "some"@ {
        1
    } else {
        0
    }
}

/// The name of the item that `make` with the words `args` would make.
pub open spec fn made_item_name(args: Seq<Seq<char>>) -> Seq<char> {
    item_name_of(args.skip(make_noun_start(args)))
}

/// Why `make` refuses, if it does.
pub open spec fn make_refusal(
    source: Seq<char>,
    args: Seq<Seq<char>>,
    items: Seq<ItemView>,
    cs: Seq<CharacterView>,
) -> Option<Seq<char>> {
    if args.len() <= 1 {
        Some("ESPANOL ES NO MIO."@)
    } else if is_isize_literal(trim_ws(args[0])) {
        Some("You can't make more than one item at a time, dweeb."@)
    } else {
        let name = made_item_name(args);
        if name == coin_name() {
            Some("You can't create a "@ + coin_name() + "! That's COUNTERFIETING!."@)
        } else if has_item(items, name) && item_named(items, name)->0.creator_name != source {
            Some(
                "You can't create a "@ + name + "! That's COPYRIGHT INFRINGEMENT on "@ + item_named(
                    items,
                    name,
                )->0.creator_name + "!"@,
            )
        } else if !has_character(cs, source) {
            Some("Who ARE you?!"@)
        } else {
            None
        }
    }
}

/// The answer to `make`.
pub open spec fn make_reply(
    source: Seq<char>,
    args: Seq<Seq<char>>,
    items: Seq<ItemView>,
    cs: Seq<CharacterView>,
) -> Seq<char> {
    match make_refusal(source, args, items, cs) {
        Some(r) => r,
        None => "A sparkle of light, and it is done!"@,
    }
}

/// The items after `make`: where it succeeds, the made item, new or renewed,
/// with the speaker as its creator.
pub open spec fn make_items(
    source: Seq<char>,
    args: Seq<Seq<char>>,
    items: Seq<ItemView>,
    cs: Seq<CharacterView>,
) -> Seq<ItemView> {
    if make_refusal(source, args, items, cs) is None {
        put_item(
            items,
            ItemView {
                name: made_item_name(args),
                description: "mysterious"@,
                creator_name: source,
            },
        )
    } else {
        items
    }
}

/// The characters after `make`: where it succeeds, the speaker carries one
/// piece more of the made item.
pub open spec fn make_characters(
    source: Seq<char>,
    args: Seq<Seq<char>>,
    items: Seq<ItemView>,
    cs: Seq<CharacterView>,
) -> Seq<CharacterView> {
    if make_refusal(source, args, items, cs) is None {
        let i = character_index(cs, source);
        cs.update(
            i,
            CharacterView { inventory: add_piece(cs[i].inventory, made_item_name(args)), ..cs[i] },
        )
    } else {
        cs
    }
}

/// Whether `make` would push the speaker's stack of the made item past the
/// largest count (where the counter overflows).
pub open spec fn make_overflows(
    source: Seq<char>,
    args: Seq<Seq<char>>,
    items: Seq<ItemView>,
    cs: Seq<CharacterView>,
) -> bool {
    make_refusal(source, args, items, cs) is None && count_in(
        character_named(cs, source)->0.inventory,
        made_item_name(args),
    ) == Some(u64::MAX)
}

/// The name of the item that `make` with the words `args` would make.
fn item_to_make(args: &Vec<&str>) -> (r: String)
    requires
        args@.len() > 1,
    ensures
        r@ == made_item_name(str_views(args@)),
{
    let noun_start_index: usize = if str_eq(args[0], "a") || str_eq(args[0], "an") || str_eq(
        args[0],
        "some",
    ) {
        1
    } else {
        0
    };
    let rest = words_from(args, noun_start_index);
    get_item_name(rest.as_slice())
}

/// Why `make` refuses, if it does.
fn make_refusal_text(
    source_nickname: &str,
    args: &Vec<&str>,
    items: &Items,
    characters: &Characters,
) -> (r: Option<String>)
    ensures
        r is None <==> make_refusal(source_nickname@, str_views(args@), items@, characters@) is None,
        r matches Some(t) ==> make_refusal(source_nickname@, str_views(args@), items@, characters@)
            == Some(t@),
{
    if args.len() <= 1 {
        return Some(String::from_str("ESPANOL ES NO MIO."));
    }
    if parses_as_isize(trim(args[0])) {
        return Some(String::from_str("You can't make more than one item at a time, dweeb."));
    }
    let item_name = item_to_make(args);
    if str_eq(item_name.as_str(), "shit coin") {
        let mut s = String::new();
        s.append("You can't create a ");
        s.append("shit coin");
        s.append("! That's COUNTERFIETING!.");
        return Some(s);
    }
    match items.get(item_name.as_str()) {
        Some(existing_item) => {
            if !str_eq(existing_item.creator_name.as_str(), source_nickname) {
                let mut s = String::new();
                s.append("You can't create a ");
                s.append(item_name.as_str());
                s.append("! That's COPYRIGHT INFRINGEMENT on ");
                s.append(existing_item.creator_name.as_str());
                s.append("!");
                return Some(s);
            }
        },
        None => {},
    }
    if !characters.contains_key(source_nickname) {
        return Some(String::from_str("Who ARE you?!"));
    }
    None
}

/// Makes an item: the speaker becomes its creator and carries one piece more
/// of it.
pub fn make(
    source_nickname: &str,
    args: &Vec<&str>,
    items: &mut Items,
    characters: &mut Characters,
) -> (r: String)
    requires
        !make_overflows(source_nickname@, str_views(args@), old(items)@, old(characters)@),
    ensures
        r@ == make_reply(source_nickname@, str_views(args@), old(items)@, old(characters)@),
        final(items)@ == make_items(source_nickname@, str_views(args@), old(items)@, old(characters)@),
        final(characters)@ == make_characters(
            source_nickname@,
            str_views(args@),
            old(items)@,
            old(characters)@,
        ),
{
    if let Some(refusal) = make_refusal_text(source_nickname, args, items, characters) {
        return refusal;
    }
    let item_name = item_to_make(args);
    let ci = characters.find(source_nickname).unwrap();
    let item = Item {
        name: item_name.clone(),
        description: String::from_str("mysterious"),
        creator_name: String::from_str(source_nickname),
    };
    items.insert(item);
    characters.add_piece(ci, item_name.as_str());
    String::from_str("A sparkle of light, and it is done!")
}

/// Makes an item, as `make` does.
pub fn create(
    source_nickname: &str,
    args: &Vec<&str>,
    items: &mut Items,
    characters: &mut Characters,
) -> (r: String)
    requires
        !make_overflows(source_nickname@, str_views(args@), old(items)@, old(characters)@),
    ensures
        r@ == make_reply(source_nickname@, str_views(args@), old(items)@, old(characters)@),
        final(items)@ == make_items(source_nickname@, str_views(args@), old(items)@, old(characters)@),
        final(characters)@ == make_characters(
            source_nickname@,
            str_views(args@),
            old(items)@,
            old(characters)@,
        ),
{
    make(source_nickname, args, items, characters)
}

/// Makes an item, as `make` does.
pub fn craft(
    source_nickname: &str,
    args: &Vec<&str>,
    items: &mut Items,
    characters: &mut Characters,
) -> (r: String)
    requires
        !make_overflows(source_nickname@, str_views(args@), old(items)@, old(characters)@),
    ensures
        r@ == make_reply(source_nickname@, str_views(args@), old(items)@, old(characters)@),
        final(items)@ == make_items(source_nickname@, str_views(args@), old(items)@, old(characters)@),
        final(characters)@ == make_characters(
            source_nickname@,
            str_views(args@),
            old(items)@,
            old(characters)@,
        ),
{
    make(source_nickname, args, items, characters)
}

/// Whether `make` would overflow the speaker's stack (see `make_overflows`).
pub fn make_would_overflow(
    source_nickname: &str,
    args: &Vec<&str>,
    items: &Items,
    characters: &Characters,
) -> (r: bool)
    ensures
        r == make_overflows(source_nickname@, str_views(args@), items@, characters@),
{
    if make_refusal_text(source_nickname, args, items, characters).is_some() {
        return false;
    }
    let item_name = item_to_make(args);
    match characters.get(source_nickname) {
        Some(c) => c.inventory.get(item_name.as_str()) == Some(u64::MAX),
        None => false,
    }
}

// ---------------------------------------------------------------- I

/// The words that `I` leaves out of a self-description.
pub open spec fn filler_words() -> Seq<Seq<char>> {
    seq!["I"@, "am"@, "AM"@]
}

/// The self-description that `I` with the words `args` would set.
pub open spec fn self_description(args: Seq<Seq<char>>) -> Seq<char> {
    item_name_of(keep_words(args, filler_words()))
}

/// The answer to `I`.
pub open spec fn i_reply(source: Seq<char>, args: Seq<Seq<char>>, cs: Seq<CharacterView>) -> Seq<
    char,
> {
    if !has_character(cs, source) {
        "YOU. ARE. NOT. WORTHY. ALSO THIS IS A BUG."@
    } else if args.len() == 0 {
        "YOU."@
    } else if args.len() == 1 {
        "YOU IS WHAT."@
    } else if keep_words(args, filler_words()).len() == 0 {
        "WHAT IS YOU SAY MOTHER FUCKER."@
    } else {
        source + ", I agree completely."@
    }
}

/// The characters after `I`: where it succeeds, the speaker has the new
/// description.
pub open spec fn i_characters(source: Seq<char>, args: Seq<Seq<char>>, cs: Seq<CharacterView>) -> Seq<
    CharacterView,
> {
    if has_character(cs, source) && args.len() > 1 && keep_words(args, filler_words()).len() > 0 {
        let i = character_index(cs, source);
        cs.update(i, CharacterView { description: self_description(args), ..cs[i] })
    } else {
        cs
    }
}

/// Describes the speaker: `I am <description>`. Items are described with
/// `a` and `an` (see `describe_item`), by their maker while carrying them.
#[allow(non_snake_case)]
pub fn I(source_nickname: &str, args: &Vec<&str>, items: &Items, characters: &mut Characters) -> (r:
    String)
    ensures
        r@ == i_reply(source_nickname@, str_views(args@), old(characters)@),
        final(characters)@ == i_characters(source_nickname@, str_views(args@), old(characters)@),
{
    let ci = match characters.find(source_nickname) {
        Some(i) => i,
        None => {
            return String::from_str("YOU. ARE. NOT. WORTHY. ALSO THIS IS A BUG.");
        },
    };
    if args.len() == 0 {
        return String::from_str("YOU.");
    } else if args.len() == 1 {
        return String::from_str("YOU IS WHAT.");
    }
    let fillers = ["I", "am", "AM"];
    assert(str_views(fillers@) =~= filler_words());
    let cleaned_args = without_words(args, fillers.as_slice());
    if cleaned_args.len() == 0 {
        return String::from_str("WHAT IS YOU SAY MOTHER FUCKER.");
    }
    let desc = get_item_name(cleaned_args.as_slice());
    characters.set_description(ci, desc);
    let mut r = String::new();
    r.append(source_nickname);
    r.append(", I agree completely.");
    r
}

// ---------------------------------------------------------------- describing items

/// Where `describe_item` finds the word "is" (0 where there is none).
pub open spec fn is_position(args: Seq<Seq<char>>) -> int {
    position_or_zero(args, "is"@)
}

/// The name of the item that `describe_item` describes.
pub open spec fn described_item_name(args: Seq<Seq<char>>) -> Seq<char> {
    item_name_of(args.take(is_position(args)))
}

/// The description that `describe_item` gives.
pub open spec fn item_description(args: Seq<Seq<char>>) -> Seq<char> {
    item_name_of(args.skip(is_position(args) + 1))
}

/// Why `describe_item` refuses, if it does. Only the maker of an item who
/// carries it may describe it.
pub open spec fn describe_refusal(
    source: Seq<char>,
    args: Seq<Seq<char>>,
    items: Seq<ItemView>,
    cs: Seq<CharacterView>,
) -> Option<Seq<char>> {
    let name = described_item_name(args);
    if args.len() < 3 {
        Some("is wat."@)
    } else if is_position(args) == 0 {
        Some(source + ", stop making retarded item names."@)
    } else if !has_item(items, name) {
        Some("that's bullshit."@)
    } else if item_named(items, name)->0.creator_name != source {
        Some(
            "You can't describe a "@ + name + "! It was made by "@ + item_named(
                items,
                name,
            )->0.creator_name + "."@,
        )
    } else if !(has_character(cs, source) && holds(character_named(cs, source)->0.inventory, name)) {
        Some("pls, you don't even HAVE a "@ + name + "!"@)
    } else {
        None
    }
}

/// The answer to `describe_item`.
pub open spec fn describe_reply(
    source: Seq<char>,
    args: Seq<Seq<char>>,
    items: Seq<ItemView>,
    cs: Seq<CharacterView>,
) -> Seq<char> {
    match describe_refusal(source, args, items, cs) {
        Some(r) => r,
        None => "Interesting. "@ + described_item_name(args) + " have always fascinated me, "@
            + source + "."@,
    }
}

/// The items after `describe_item`: where it succeeds, the item has the new
/// description.
pub open spec fn describe_items(
    source: Seq<char>,
    args: Seq<Seq<char>>,
    items: Seq<ItemView>,
    cs: Seq<CharacterView>,
) -> Seq<ItemView> {
    if describe_refusal(source, args, items, cs) is None {
        describe_in(items, described_item_name(args), item_description(args))
    } else {
        items
    }
}

/// Describes an item that the speaker made and carries:
/// `<item> is <description>`.
pub fn describe_item(
    source_nickname: &str,
    args: &Vec<&str>,
    items: &mut Items,
    characters: &Characters,
) -> (r: String)
    ensures
        r@ == describe_reply(source_nickname@, str_views(args@), old(items)@, characters@),
        final(items)@ == describe_items(source_nickname@, str_views(args@), old(items)@, characters@),
{
    if args.len() < 3 {
        return String::from_str("is wat.");
    }
    let is_pos = position_of(args, "is");
    if is_pos == 0 {
        let mut r = String::new();
        r.append(source_nickname);
        r.append(", stop making retarded item names.");
        return r;
    }
    let name_words = words_before(args, is_pos);
    let item_name = get_item_name(name_words.as_slice());
    let item = match items.get(item_name.as_str()) {
        Some(it) => it,
        None => {
            return String::from_str("that's bullshit.");
        },
    };
    if !str_eq(item.creator_name.as_str(), source_nickname) {
        let mut r = String::new();
        r.append("You can't describe a ");
        r.append(item_name.as_str());
        r.append("! It was made by ");
        r.append(item.creator_name.as_str());
        r.append(".");
        return r;
    }
    let carries = match characters.get(source_nickname) {
        Some(c) => {
            c.inventory.get(item_name.as_str()).is_some()
        },
        None => false,
    };
    if !carries {
        let mut r = String::new();
        r.append("pls, you don't even HAVE a ");
        r.append(item_name.as_str());
        r.append("!");
        return r;
    }
    let desc_words = words_from(args, is_pos + 1);
    let desc = get_item_name(desc_words.as_slice());
    items.set_description(item_name.as_str(), desc);
    let mut r = String::new();
    r.append("Interesting. ");
    r.append(item_name.as_str());
    r.append(" have always fascinated me, ");
    r.append(source_nickname);
    r.append(".");
    r
}

/// Describes an item that the speaker made and carries:
/// `a <item> is <description>`.
pub fn a(source_nickname: &str, args: &Vec<&str>, items: &mut Items, characters: &Characters) -> (r:
    String)
    ensures
        r@ == describe_reply(source_nickname@, str_views(args@), old(items)@, characters@),
        final(items)@ == describe_items(source_nickname@, str_views(args@), old(items)@, characters@),
{
    describe_item(source_nickname, args, items, characters)
}

/// Describes an item that the speaker made and carries:
/// `an <item> is <description>`.
pub fn an(source_nickname: &str, args: &Vec<&str>, items: &mut Items, characters: &Characters) -> (r:
    String)
    ensures
        r@ == describe_reply(source_nickname@, str_views(args@), old(items)@, characters@),
        final(items)@ == describe_items(source_nickname@, str_views(args@), old(items)@, characters@),
{
    describe_item(source_nickname, args, items, characters)
}

// ---------------------------------------------------------------- not yet playable

/// Equipping items is not part of the game yet.
pub fn equip(source_nickname: &str, args: &Vec<&str>, items: &Items, characters: &Characters) -> (r:
    String)
    ensures
        r@ == "Unimplemented"@,
{
    String::from_str("Unimplemented")
}

/// Bidding on items is not part of the game yet.
pub fn bid(source_nickname: &str, args: &Vec<&str>, items: &Items, characters: &Characters) -> (r:
    String)
    ensures
        r@ == "Unimplemented"@,
{
    String::from_str("Unimplemented")
}

// ---------------------------------------------------------------- give

/// The words that `give` leaves out.
pub open spec fn article_words() -> Seq<Seq<char>> {
    seq!["my"@, "MY"@, "a"@, "A"@, "an"@, "AN"@]
}

/// The words of `give` that count.
pub open spec fn give_words(args: Seq<Seq<char>>) -> Seq<Seq<char>> {
    keep_words(args, article_words())
}

/// Where the word "to" stands among the words of `give` that count (0 where
/// there is none): `give <person> <item>` or `give <item> to <person>`.
pub open spec fn give_to_position(args: Seq<Seq<char>>) -> int {
    position_or_zero(give_words(args), "to"@)
}

/// Who receives the gift: the first word that counts, or the words after
/// "to".
pub open spec fn give_receiver(args: Seq<Seq<char>>) -> Seq<char> {
    let w = give_words(args);
    let t = give_to_position(args);
    if t == 0 {
        w[0]
    } else {
        item_name_of(w.skip(t + 1))
    }
}

/// The name of the item given: the other words that count, or the words
/// before "to".
pub open spec fn give_item_name(args: Seq<Seq<char>>) -> Seq<char> {
    let w = give_words(args);
    let t = give_to_position(args);
    if t == 0 {
        item_name_of(w.skip(1))
    } else {
        item_name_of(w.take(t))
    }
}

/// Why `give` refuses, if it does.
pub open spec fn give_refusal(
    source: Seq<char>,
    args: Seq<Seq<char>>,
    items: Seq<ItemView>,
    cs: Seq<CharacterView>,
) -> Option<Seq<char>> {
    let w = give_words(args);
    if w.len() <= 1 {
        Some("POR QUE ENGLAISE."@)
    } else {
        let item = give_item_name(args);
        let receiver = give_receiver(args);
        if !has_item(items, item) {
            Some("Don't start making shit up "@ + source + ", "@ + item + " don't exist."@)
        } else if receiver == "me"@ {
            Some("Fuck you, get your own "@ + item + "."@)
        } else if !has_character(cs, source) {
            Some(source + ": who?"@)
        } else if !holds(character_named(cs, source)->0.inventory, item) {
            Some("pls, you don't even HAVE a "@ + item + "!"@)
        } else if !has_character(cs, receiver) {
            Some(source + ": the fuck is a "@ + item + "?"@)
        } else if count_in(character_named(cs, receiver)->0.inventory, item) == Some(u64::MAX) {
            Some(receiver + " can't hold all of these "@ + item + "!"@)
        } else {
            None
        }
    }
}

/// The answer to `give`.
pub open spec fn give_reply(
    source: Seq<char>,
    args: Seq<Seq<char>>,
    items: Seq<ItemView>,
    cs: Seq<CharacterView>,
) -> Seq<char> {
    match give_refusal(source, args, items, cs) {
        Some(r) => r,
        None => "Done!"@,
    }
}

/// The characters after `from` hands one piece of `item` to `to`.
pub open spec fn hand_over(
    cs: Seq<CharacterView>,
    from: Seq<char>,
    to: Seq<char>,
    item: Seq<char>,
) -> Seq<CharacterView> {
    let gi = character_index(cs, from);
    let after_giving = cs.update(
        gi,
        CharacterView { inventory: remove_piece(cs[gi].inventory, item), ..cs[gi] },
    );
    let ri = character_index(cs, to);
    after_giving.update(
        ri,
        CharacterView {
            inventory: add_piece(after_giving[ri].inventory, item),
            ..after_giving[ri]
        },
    )
}

/// The characters after `give`.
pub open spec fn give_characters(
    source: Seq<char>,
    args: Seq<Seq<char>>,
    items: Seq<ItemView>,
    cs: Seq<CharacterView>,
) -> Seq<CharacterView> {
    if give_refusal(source, args, items, cs) is None {
        hand_over(cs, source, give_receiver(args), give_item_name(args))
    } else {
        cs
    }
}

/// Gives one piece of an item from the speaker to someone else:
/// `give <person> [my] <item>` or `give [my] <item> to <person>`.
pub fn give(source_nickname: &str, args: &Vec<&str>, items: &Items, characters: &mut Characters) -> (r:
    String)
    ensures
        r@ == give_reply(source_nickname@, str_views(args@), items@, old(characters)@),
        final(characters)@ == give_characters(
            source_nickname@,
            str_views(args@),
            items@,
            old(characters)@,
        ),
{
    let articles = ["my", "MY", "a", "A", "an", "AN"];
    assert(str_views(articles@) =~= article_words());
    let cleaned_args = without_words(args, articles.as_slice());
    if cleaned_args.len() <= 1 {
        return String::from_str("POR QUE ENGLAISE.");
    }
    let to_pos = position_of(&cleaned_args, "to");
    let giver_name = source_nickname;
    let (reciever, item_name) = if to_pos == 0 {
        let item_words = words_from(&cleaned_args, 1);
        (String::from_str(cleaned_args[0]), get_item_name(item_words.as_slice()))
    } else {
        let reciever_words = words_from(&cleaned_args, to_pos + 1);
        let item_words = words_before(&cleaned_args, to_pos);
        (get_item_name(reciever_words.as_slice()), get_item_name(item_words.as_slice()))
    };
    let reciever_name = reciever.as_str();
    let item = item_name.as_str();
    if !items.contains_key(item) {
        let mut r = String::new();
        r.append("Don't start making shit up ");
        r.append(giver_name);
        r.append(", ");
        r.append(item);
        r.append(" don't exist.");
        return r;
    }
    if str_eq(reciever_name, "me") {
        let mut r = String::new();
        r.append("Fuck you, get your own ");
        r.append(item);
        r.append(".");
        return r;
    }
    let gi = match characters.find(giver_name) {
        Some(i) => i,
        None => {
            let mut r = String::new();
            r.append(giver_name);
            r.append(": who?");
            return r;
        },
    };
    if characters.at(gi).inventory.get(item).is_none() {
        let mut r = String::new();
        r.append("pls, you don't even HAVE a ");
        r.append(item);
        r.append("!");
        return r;
    }
    let ri = match characters.find(reciever_name) {
        Some(i) => i,
        None => {
            let mut r = String::new();
            r.append(giver_name);
            r.append(": the fuck is a ");
            r.append(item);
            r.append("?");
            return r;
        },
    };
    if characters.at(ri).inventory.get(item) == Some(u64::MAX) {
        let mut r = String::new();
        r.append(reciever_name);
        r.append(" can't hold all of these ");
        r.append(item);
        r.append("!");
        return r;
    }
    let ghost before = characters@;
    proof {
        use_type_invariant(&*characters);
        lemma_named_character_wf(before, giver_name@);
    }
    characters.remove_piece(gi, item);
    proof {
        if ri == gi {
            lemma_remove_piece_count(before[gi as int].inventory, item@);
        } else {
            assert(characters@[ri as int] == before[ri as int]);
        }
    }
    characters.add_piece(ri, item);
    String::from_str("Done!")
}

// ---------------------------------------------------------------- quit

/// What a command asks of the bot.
pub enum Outcome {
    /// The message was no command: nothing is answered.
    Ignore,
    /// The answer to send back.
    Reply(String),
    /// The bot stops at once: nothing is answered, and no further message is
    /// read. This library never panics, so ending the program is left to the
    /// caller that receives this outcome.
    Quit,
}

/// An outcome of the view.
pub enum OutcomeView {
    Ignore,
    Reply(Seq<char>),
    Quit,
}

impl View for Outcome {
    type V = OutcomeView;

    open spec fn view(&self) -> OutcomeView {
        match self {
            Outcome::Ignore => OutcomeView::Ignore,
            Outcome::Reply(s) => OutcomeView::Reply(s@),
            Outcome::Quit => OutcomeView::Quit,
        }
    }
}

/// Stops the bot: never a reply, always the end of the session.
pub fn quit(source_nickname: &str, args: &Vec<&str>, items: &Items, characters: &Characters) -> (r:
    Outcome)
    ensures
        r@ == OutcomeView::Quit,
{
    Outcome::Quit
}

// ---------------------------------------------------------------- possessives

/// The words with every trailing `'s` removed.
pub open spec fn without_ownership(ws: Seq<Seq<char>>) -> Seq<Seq<char>> {
    ws.map_values(|w: Seq<char>| strip_suffixes(w, "'s"@))
}

/// Removes every trailing `'s` from each token, so that `bob's` reads `bob`.
pub fn remove_ownership_suffixes(tokens: &mut Vec<&str>)
    ensures
        str_views(final(tokens)@) == without_ownership(str_views(old(tokens)@)),
{
    let ghost orig = str_views(tokens@);
    let mut i: usize = 0;
    while i < tokens.len()
        invariant
            i <= tokens@.len(),
            tokens@.len() == orig.len(),
            orig == str_views(old(tokens)@),
            forall|j: int| 0 <= j < i ==> (#[trigger] tokens@[j])@ == strip_suffixes(orig[j], "'s"@),
            forall|j: int| i <= j < tokens@.len() ==> (#[trigger] tokens@[j])@ == orig[j],
        decreases tokens.len() - i,
    {
        let t = trim_end_matches(tokens[i], "'s");
        tokens.set(i, t);
        i = i + 1;
    }
    assert(str_views(tokens@) =~= without_ownership(orig));
}

// ---------------------------------------------------------------- roll call

/// The names of the users in the room.
pub open spec fn user_names(users: Seq<String>) -> Seq<Seq<char>> {
    users.map_values(|u: String| u@)
}

/// The characters whose names are among `names`, in order.
pub open spec fn keep_present(cs: Seq<CharacterView>, names: Seq<Seq<char>>) -> Seq<CharacterView>
    decreases cs.len(),
{
    if cs.len() == 0 {
        cs
    } else if names.contains(cs.last().name) {
        keep_present(cs.drop_last(), names).push(cs.last())
    } else {
        keep_present(cs.drop_last(), names)
    }
}

/// The character that someone who just arrived becomes.
pub open spec fn newcomer(name: Seq<char>) -> CharacterView {
    CharacterView {
        name,
        description: "an average shitposter"@,
        inventory: seq![(coin_name(), starting_coin_count())],
    }
}

/// `cs` with a newcomer added at the end for each name, in order, that is
/// neither empty nor already a character's.
pub open spec fn welcome(cs: Seq<CharacterView>, names: Seq<Seq<char>>) -> Seq<CharacterView>
    decreases names.len(),
{
    if names.len() == 0 {
        cs
    } else {
        let r = welcome(cs, names.drop_last());
        let u = names.last();
        if u.len() == 0 || has_character(r, u) {
            r
        } else {
            r.push(newcomer(u))
        }
    }
}

/// The characters once those who left are gone and those who came are added.
pub open spec fn roll_call(cs: Seq<CharacterView>, names: Seq<Seq<char>>) -> Seq<CharacterView> {
    welcome(keep_present(cs, names), names)
}

/// Whether `name` is among the names of `users`.
pub fn is_present(users: &Vec<String>, name: &str) -> (r: bool)
    ensures
        r == user_names(users@).contains(name@),
{
    let ghost un = user_names(users@);
    let mut i: usize = 0;
    while i < users.len()
        invariant
            i <= users@.len(),
            un == user_names(users@),
            forall|j: int| 0 <= j < i ==> un[j] != name@,
        decreases users.len() - i,
    {
        if str_eq(users[i].as_str(), name) {
            assert(un[i as int] == name@);
            return true;
        }
        i = i + 1;
    }
    false
}

/// Brings the characters in line with the users in the room: those who left
/// are forgotten, and each newcomer gets a description and the starting coins.
pub fn update_characters(users: &Vec<String>, characters: &mut Characters)
    ensures
        final(characters)@ == roll_call(old(characters)@, user_names(users@)),
{
    let ghost names = user_names(users@);
    let ghost old_cs = characters@;
    let old_len = characters.len();
    let mut k: usize = 0;
    let mut i: usize = 0;
    assert(old_cs.take(0) =~= Seq::<CharacterView>::empty());
    assert(characters@ =~= keep_present(old_cs.take(0), names) + old_cs.skip(0));
    while i < characters.len()
        invariant
            names == user_names(users@),
            k <= old_cs.len(),
            old_cs.len() == old_len,
            characters@ == keep_present(old_cs.take(k as int), names) + old_cs.skip(k as int),
            i == keep_present(old_cs.take(k as int), names).len(),
        decreases old_cs.len() - k,
    {
        let ghost kp = keep_present(old_cs.take(k as int), names);
        assert(characters@.len() == i + old_cs.skip(k as int).len());
        assert(k < old_cs.len());
        assert(characters@[i as int] == old_cs[k as int]);
        assert(old_cs.take(k + 1).drop_last() =~= old_cs.take(k as int));
        assert(old_cs.take(k + 1).last() == old_cs[k as int]);
        if is_present(users, characters.at(i).name.as_str()) {
            assert(characters@ =~= kp.push(old_cs[k as int]) + old_cs.skip(k + 1));
            i = i + 1;
        } else {
            characters.remove(i);
            assert(characters@ =~= kp + old_cs.skip(k + 1));
        }
        k = k + 1;
    }
    assert(old_cs.take(k as int) =~= old_cs);
    assert(characters@ =~= keep_present(old_cs, names));
    let ghost kept = characters@;
    let mut j: usize = 0;
    assert(names.take(0) =~= Seq::<Seq<char>>::empty());
    while j < users.len()
        invariant
            names == user_names(users@),
            j <= users@.len(),
            characters@ == welcome(kept, names.take(j as int)),
        decreases users.len() - j,
    {
        assert(names.take(j + 1).drop_last() =~= names.take(j as int));
        assert(names.take(j + 1).last() == users@[j as int]@);
        let u = users[j].as_str();
        if u.unicode_len() == 0 || characters.contains_key(u) {
        } else {
            let coins = Inventory::single(String::from_str("shit coin"), 100);
            let c = Character {
                name: String::from_str(u),
                description: String::from_str("an average shitposter"),
                inventory: coins,
            };
            characters.push(c);
        }
        j = j + 1;
    }
    assert(names.take(users@.len() as int) =~= names);
}

} // verus!

//! Reading a chat message as a command, and carrying the command out.
use vstd::prelude::*;
use crate::commands::{
    Outcome, OutcomeView, I, a, an, bid, craft, create, describe_items, describe_reply, equip,
    give, give_characters, give_reply, hi, hi_reply, i_characters, i_reply, look, look_reply,
    make, make_characters, make_items, make_overflows, make_reply, make_would_overflow, quit,
    remove_ownership_suffixes, without_ownership,
};
use crate::text::{
    has_prefix, split_whitespace, split_ws, starts_with, str_eq, str_views, strip_prefixes,
    trim_start_matches,
};
use crate::world::{CharacterView, Characters, Item, ItemView, Items, items_wf};

verus! {

/// The text of a command: the message after its leading `!`s, `irk:`s or
/// `irk,`s, if it begins with one of them.
pub open spec fn command_text(msg: Seq<char>) -> Option<Seq<char>> {
    if has_prefix(msg, "!"@) {
        Some(strip_prefixes(msg, "!"@))
    } else if has_prefix(msg, "irk:"@) {
        Some(strip_prefixes(msg, "irk:"@))
    } else if has_prefix(msg, "irk,"@) {
        Some(strip_prefixes(msg, "irk,"@))
    } else {
        None
    }
}

/// The words of a command, if the message is one.
pub open spec fn command_words(msg: Seq<char>) -> Option<Seq<Seq<char>>> {
    match command_text(msg) {
        Some(t) => Some(split_ws(t)),
        None => None,
    }
}

/// Reads a message as a command: its words, or `None` where the message is
/// not addressed to the bot.
pub fn parse_command<'a>(msg: &'a str) -> (r: Option<Vec<&'a str>>)
    ensures
        r is None <==> command_words(msg@) is None,
        r matches Some(w) ==> command_words(msg@) == Some(str_views(w@)),
{
    let trimmed_msg = if starts_with(msg, "!") {
        trim_start_matches(msg, "!")
    } else if starts_with(msg, "irk:") {
        trim_start_matches(msg, "irk:")
    } else if starts_with(msg, "irk,") {
        trim_start_matches(msg, "irk,")
    } else {
        return None;
    };
    Some(split_whitespace(trimmed_msg))
}

/// The arguments of a command: its words after the first, without `'s`.
pub open spec fn command_args(words: Seq<Seq<char>>) -> Seq<Seq<char>> {
    without_ownership(words.drop_first())
}

pub open spec fn is_make_command(w: Seq<char>) -> bool {
    w == "make"@ || w == "create"@ || w == "craft"@
}

/// What a command asks of the bot.
pub open spec fn dispatch_outcome(
    source: Seq<char>,
    words: Seq<Seq<char>>,
    items: Seq<ItemView>,
    cs: Seq<CharacterView>,
) -> OutcomeView {
    let c = words[0];
    let args = command_args(words);
    if c == "hi"@ {
        OutcomeView::Reply(hi_reply(source))
    } else if c == "I"@ {
        OutcomeView::Reply(i_reply(source, args, cs))
    } else if c == "a"@ || c == "an"@ {
        OutcomeView::Reply(describe_reply(source, args, items, cs))
    } else if is_make_command(c) {
        OutcomeView::Reply(make_reply(source, args, items, cs))
    } else if c == "look"@ {
        OutcomeView::Reply(look_reply(source, args, items, cs))
    } else if c == "equip"@ || c == "bid"@ {
        OutcomeView::Reply("Unimplemented"@)
    } else if c == "give"@ {
        OutcomeView::Reply(give_reply(source, args, items, cs))
    } else if c == "quit"@ {
        OutcomeView::Quit
    } else {
        OutcomeView::Ignore
    }
}

/// The items after a command.
pub open spec fn dispatch_items(
    source: Seq<char>,
    words: Seq<Seq<char>>,
    items: Seq<ItemView>,
    cs: Seq<CharacterView>,
) -> Seq<ItemView> {
    let c = words[0];
    let args = command_args(words);
    if c == "hi"@ || c == "I"@ {
        items
    } else if c == "a"@ || c == "an"@ {
        describe_items(source, args, items, cs)
    } else if is_make_command(c) {
        make_items(source, args, items, cs)
    } else {
        items
    }
}

/// The characters after a command.
pub open spec fn dispatch_characters(
    source: Seq<char>,
    words: Seq<Seq<char>>,
    items: Seq<ItemView>,
    cs: Seq<CharacterView>,
) -> Seq<CharacterView> {
    let c = words[0];
    let args = command_args(words);
    if c == "hi"@ {
        cs
    } else if c == "I"@ {
        i_characters(source, args, cs)
    } else if c == "a"@ || c == "an"@ {
        cs
    } else if is_make_command(c) {
        make_characters(source, args, items, cs)
    } else if c == "look"@ || c == "equip"@ {
        cs
    } else if c == "give"@ {
        give_characters(source, args, items, cs)
    } else {
        cs
    }
}

/// Whether the command would overflow the speaker's stack of a made item.
pub open spec fn dispatch_overflows(
    source: Seq<char>,
    words: Seq<Seq<char>>,
    items: Seq<ItemView>,
    cs: Seq<CharacterView>,
) -> bool {
    is_make_command(words[0]) && make_overflows(source, command_args(words), items, cs)
}

/// The arguments of a command, from its words.
fn arguments<'a>(words: &Vec<&'a str>) -> (r: Vec<&'a str>)
    requires
        words@.len() > 0,
    ensures
        str_views(r@) == command_args(str_views(words@)),
{
    let mut args = words.clone();
    args.remove(0);
    assert(str_views(args@) =~= str_views(words@).drop_first());
    remove_ownership_suffixes(&mut args);
    args
}

/// Whether the command would overflow the speaker's stack of a made item.
pub fn dispatch_would_overflow(
    source_nickname: &str,
    words: &Vec<&str>,
    items: &Items,
    characters: &Characters,
) -> (r: bool)
    requires
        words@.len() > 0,
    ensures
        r == dispatch_overflows(source_nickname@, str_views(words@), items@, characters@),
{
    let name = words[0];
    if str_eq(name, "make") || str_eq(name, "create") || str_eq(name, "craft") {
        let args = arguments(words);
        make_would_overflow(source_nickname, &args, items, characters)
    } else {
        false
    }
}

/// Carries out the command of the words `words`, given by `source_nickname`.
pub fn dispatch(
    source_nickname: &str,
    words: &Vec<&str>,
    items: &mut Items,
    characters: &mut Characters,
) -> (r: Outcome)
    requires
        words@.len() > 0,
        !dispatch_overflows(source_nickname@, str_views(words@), old(items)@, old(characters)@),
    ensures
        r@ == dispatch_outcome(source_nickname@, str_views(words@), old(items)@, old(characters)@),
        final(items)@ == dispatch_items(
            source_nickname@,
            str_views(words@),
            old(items)@,
            old(characters)@,
        ),
        final(characters)@ == dispatch_characters(
            source_nickname@,
            str_views(words@),
            old(items)@,
            old(characters)@,
        ),
{
    let name = words[0];
    let args = arguments(words);
    let source = source_nickname;
    let ghost ws = str_views(words@);
    assert(ws[0] == name@);
    if str_eq(name, "hi") {
        Outcome::Reply(hi(source, &args, items, characters))
    } else if str_eq(name, "I") {
        Outcome::Reply(I(source, &args, items, characters))
    } else if str_eq(name, "a") {
        Outcome::Reply(a(source, &args, items, characters))
    } else if str_eq(name, "an") {
        Outcome::Reply(an(source, &args, items, characters))
    } else if str_eq(name, "make") {
        Outcome::Reply(make(source, &args, items, characters))
    } else if str_eq(name, "create") {
        Outcome::Reply(create(source, &args, items, characters))
    } else if str_eq(name, "craft") {
        Outcome::Reply(craft(source, &args, items, characters))
    } else if str_eq(name, "look") {
        Outcome::Reply(look(source, &args, items, characters))
    } else if str_eq(name, "equip") {
        Outcome::Reply(equip(source, &args, items, characters))
    } else if str_eq(name, "give") {
        let r = give(source, &args, items, characters);
        proof {
            reveal_strlit("give");
            reveal_strlit("bid");
        }
        Outcome::Reply(r)
    } else if str_eq(name, "bid") {
        Outcome::Reply(bid(source, &args, items, characters))
    } else if str_eq(name, "quit") {
        quit(source, &args, items, characters)
    } else {
        Outcome::Ignore
    }
}

/// The description of the starting currency.
pub open spec fn coin_item() -> ItemView {
    ItemView {
        name: "shit coin"@,
        description: "finely crafted, of the highest quality"@,
        creator_name: "GOD ALMIGHTY"@,
    }
}

/// The items that the world begins with: the currency alone.
pub fn starting_items() -> (r: Items)
    ensures
        r@ == seq![coin_item()],
        items_wf(r@),
{
    let mut items = Items::new();
    items.insert(
        Item {
            name: String::from_str("shit coin"),
            description: String::from_str("finely crafted, of the highest quality"),
            creator_name: String::from_str("GOD ALMIGHTY"),
        },
    );
    assert(items@ =~= seq![coin_item()]);
    items
}

} // verus!

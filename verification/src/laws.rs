//! What holds of the game across its commands: how many pieces of each item
//! exist, and who is in the room after a roll call.
use vstd::prelude::*;
use crate::bot::{dispatch_characters, dispatch_items, dispatch_outcome, dispatch_overflows};
use crate::commands::{
    OutcomeView, give_reply, i_characters, i_reply, keep_words, look_reply, self_description,
    stack_phrases, describe_items, describe_refusal, described_item_name,
    coin_name, give_characters, give_receiver, give_refusal, give_item_name, hand_over,
    keep_present, make_characters, make_items, made_item_name, make_overflows, make_refusal,
    newcomer,
    roll_call, welcome,
};
use crate::world::{
    CharacterView, ItemView, StackView, add_piece, character_index, character_named,
    characters_wf, count_in, has_character, lemma_characters_wf_update, holds, inventory_wf, lemma_named_character_wf,
    lemma_remove_piece_count, quantity, remove_piece, stack_index, has_item, item_index,
    item_named, items_wf, put_item,
};

verus! {

/// How many pieces of `k` all the characters carry together.
pub open spec fn total(cs: Seq<CharacterView>, k: Seq<char>) -> nat
    decreases cs.len(),
{
    if cs.len() == 0 {
        0
    } else {
        total(cs.drop_last(), k) + quantity(cs.last().inventory, k)
    }
}

/// 1 where `a` and `b` are the same name, else 0.
pub open spec fn same(a: Seq<char>, b: Seq<char>) -> nat {
    if a == b {
        1
    } else {
        0
    }
}

proof fn lemma_quantity_update(s: Seq<StackView>, i: int, e: StackView, k: Seq<char>)
    requires
        0 <= i < s.len(),
    ensures
        quantity(s.update(i, e), k) + (if s[i].0 == k {
            s[i].1 as nat
        } else {
            0
        }) == quantity(s, k) + (if e.0 == k {
            e.1 as nat
        } else {
            0
        }),
    decreases s.len(),
{
    let t = s.update(i, e);
    if i == s.len() - 1 {
        assert(t.drop_last() =~= s.drop_last());
    } else {
        assert(t.drop_last() =~= s.drop_last().update(i, e));
        lemma_quantity_update(s.drop_last(), i, e, k);
    }
}

proof fn lemma_quantity_remove(s: Seq<StackView>, i: int, k: Seq<char>)
    requires
        0 <= i < s.len(),
    ensures
        quantity(s.remove(i), k) + (if s[i].0 == k {
            s[i].1 as nat
        } else {
            0
        }) == quantity(s, k),
    decreases s.len(),
{
    let t = s.remove(i);
    if i == s.len() - 1 {
        assert(t =~= s.drop_last());
    } else {
        assert(t.drop_last() =~= s.drop_last().remove(i));
        assert(t.last() == s.last());
        lemma_quantity_remove(s.drop_last(), i, k);
    }
}

/// Taking a piece of `item` lowers the quantity of `item` by one and of every
/// other item by none.
pub proof fn lemma_remove_piece_quantity(s: Seq<StackView>, item: Seq<char>, k: Seq<char>)
    requires
        inventory_wf(s),
        holds(s, item),
    ensures
        quantity(remove_piece(s, item), k) + same(k, item) == quantity(s, k),
{
    let i = stack_index(s, item);
    assert(s[i].1 >= 1);
    if s[i].1 <= 1 {
        lemma_quantity_remove(s, i, k);
    } else {
        lemma_quantity_update(s, i, (item, (s[i].1 - 1) as u64), k);
    }
}

/// Adding a piece of `item` raises the quantity of `item` by one and of every
/// other item by none.
pub proof fn lemma_add_piece_quantity(s: Seq<StackView>, item: Seq<char>, k: Seq<char>)
    requires
        count_in(s, item) != Some(u64::MAX),
    ensures
        quantity(add_piece(s, item), k) == quantity(s, k) + same(k, item),
{
    if holds(s, item) {
        let i = stack_index(s, item);
        lemma_quantity_update(s, i, (item, (s[i].1 + 1) as u64), k);
    } else {
        assert(s.push((item, 1u64)).drop_last() =~= s);
    }
}

/// Replacing one character changes the total by the difference of what the
/// old and the new one carry.
pub proof fn lemma_total_update(cs: Seq<CharacterView>, i: int, c: CharacterView, k: Seq<char>)
    requires
        0 <= i < cs.len(),
    ensures
        total(cs.update(i, c), k) + quantity(cs[i].inventory, k) == total(cs, k) + quantity(
            c.inventory,
            k,
        ),
    decreases cs.len(),
{
    let t = cs.update(i, c);
    if i == cs.len() - 1 {
        assert(t.drop_last() =~= cs.drop_last());
    } else {
        assert(t.drop_last() =~= cs.drop_last().update(i, c));
        lemma_total_update(cs.drop_last(), i, c, k);
    }
}

/// Giving never makes nor destroys anything: after `give`, the characters
/// together carry as many pieces of every item as before.
pub proof fn law_give_conserves_every_item(
    source: Seq<char>,
    args: Seq<Seq<char>>,
    items: Seq<ItemView>,
    cs: Seq<CharacterView>,
    k: Seq<char>,
)
    requires
        characters_wf(cs),
    ensures
        total(give_characters(source, args, items, cs), k) == total(cs, k),
{
    if give_refusal(source, args, items, cs) is None {
        let item = give_item_name(args);
        let to = give_receiver(args);
        let gi = character_index(cs, source);
        let ri = character_index(cs, to);
        lemma_named_character_wf(cs, source);
        let giver = cs[gi];
        let given = CharacterView { inventory: remove_piece(giver.inventory, item), ..giver };
        let after_giving = cs.update(gi, given);
        lemma_remove_piece_quantity(giver.inventory, item, k);
        lemma_total_update(cs, gi, given, k);
        if ri == gi {
            lemma_remove_piece_count(giver.inventory, item);
        } else {
            assert(after_giving[ri] == cs[ri]);
        }
        let receiver = after_giving[ri];
        let received = CharacterView {
            inventory: add_piece(receiver.inventory, item),
            ..receiver
        };
        lemma_add_piece_quantity(receiver.inventory, item, k);
        lemma_total_update(after_giving, ri, received, k);
        assert(give_characters(source, args, items, cs) == hand_over(cs, source, to, item));
    }
}

/// Making an item adds exactly one piece of it to the world, and nothing of
/// any other item; the currency can never be made.
pub proof fn law_make_adds_one_piece(
    source: Seq<char>,
    args: Seq<Seq<char>>,
    items: Seq<ItemView>,
    cs: Seq<CharacterView>,
    k: Seq<char>,
)
    requires
        characters_wf(cs),
        !make_overflows(source, args, items, cs),
    ensures
        make_refusal(source, args, items, cs) is None ==> made_item_name(args) != coin_name(),
        total(make_characters(source, args, items, cs), k) == total(cs, k) + if make_refusal(
            source,
            args,
            items,
            cs,
        ) is None {
            same(k, made_item_name(args))
        } else {
            0
        },
{
    if make_refusal(source, args, items, cs) is None {
        let i = character_index(cs, source);
        let name = made_item_name(args);
        let c = CharacterView { inventory: add_piece(cs[i].inventory, name), ..cs[i] };
        lemma_add_piece_quantity(cs[i].inventory, name, k);
        lemma_total_update(cs, i, c, k);
    }
}

/// The supply of the currency never changes through `give` or `make`.
pub proof fn law_coin_supply_is_fixed(
    source: Seq<char>,
    args: Seq<Seq<char>>,
    items: Seq<ItemView>,
    cs: Seq<CharacterView>,
)
    requires
        characters_wf(cs),
        !make_overflows(source, args, items, cs),
    ensures
        total(give_characters(source, args, items, cs), coin_name()) == total(cs, coin_name()),
        total(make_characters(source, args, items, cs), coin_name()) == total(cs, coin_name()),
{
    law_give_conserves_every_item(source, args, items, cs, coin_name());
    law_make_adds_one_piece(source, args, items, cs, coin_name());
}

/// In a well-formed collection, the character named like the one at `i` is
/// that one.
pub proof fn lemma_named_at(s: Seq<CharacterView>, i: int)
    requires
        characters_wf(s),
        0 <= i < s.len(),
    ensures
        character_named(s, s[i].name) == Some(s[i]),
{
    assert(has_character(s, s[i].name));
    let c = character_index(s, s[i].name);
    if c != i {
        if c < i {
            assert(s[c].name != s[i].name);
        } else {
            assert(s[i].name != s[c].name);
        }
    }
}

proof fn lemma_keep_present(cs: Seq<CharacterView>, names: Seq<Seq<char>>)
    requires
        characters_wf(cs),
    ensures
        characters_wf(keep_present(cs, names)),
        forall|n: Seq<char>|
            has_character(keep_present(cs, names), n) <==> (has_character(cs, n)
                && names.contains(n)),
        forall|j: int|
            0 <= j < keep_present(cs, names).len() ==> exists|i: int|
                0 <= i < cs.len() && cs[i] == #[trigger] keep_present(cs, names)[j],
    decreases cs.len(),
{
    if cs.len() > 0 {
        let d = cs.drop_last();
        assert(characters_wf(d)) by {
            assert forall|a: int, b: int| 0 <= a < b < d.len() implies (#[trigger] d[a]).name
                != (#[trigger] d[b]).name by {
                assert(d[a] == cs[a] && d[b] == cs[b]);
            }
            assert forall|a: int| 0 <= a < d.len() implies inventory_wf(
                #[trigger] d[a].inventory,
            ) by {
                assert(d[a] == cs[a]);
            }
        }
        lemma_keep_present(d, names);
        let r = keep_present(d, names);
        let l = cs.last();
        assert forall|n: Seq<char>| has_character(cs, n) <==> (has_character(d, n) || n == l.name) by {
            if has_character(cs, n) {
                let i = choose|i: int| 0 <= i < cs.len() && (#[trigger] cs[i]).name == n;
                if i < d.len() {
                    assert(d[i] == cs[i]);
                }
            }
            if has_character(d, n) {
                let i = choose|i: int| 0 <= i < d.len() && (#[trigger] d[i]).name == n;
                assert(cs[i] == d[i]);
            }
            if n == l.name {
                assert(cs[cs.len() - 1] == l);
            }
        }
        assert(!has_character(d, l.name)) by {
            if has_character(d, l.name) {
                let i = choose|i: int| 0 <= i < d.len() && (#[trigger] d[i]).name == l.name;
                assert(cs[i] == d[i]);
                assert(cs[i].name != cs[cs.len() - 1].name);
            }
        }
        if names.contains(l.name) {
            let t = r.push(l);
            assert(t == keep_present(cs, names));
            assert forall|a: int, b: int| 0 <= a < b < t.len() implies (#[trigger] t[a]).name
                != (#[trigger] t[b]).name by {
                if b == r.len() {
                    assert(t[a] == r[a]);
                    assert(has_character(r, r[a].name));
                } else {
                    assert(t[a] == r[a] && t[b] == r[b]);
                }
            }
            assert forall|a: int| 0 <= a < t.len() implies inventory_wf(
                #[trigger] t[a].inventory,
            ) by {
                if a < r.len() {
                    assert(t[a] == r[a]);
                } else {
                    assert(cs[cs.len() - 1] == l);
                }
            }
            assert forall|n: Seq<char>| has_character(t, n) <==> (has_character(cs, n)
                && names.contains(n)) by {
                if has_character(t, n) {
                    let i = choose|i: int| 0 <= i < t.len() && (#[trigger] t[i]).name == n;
                    if i < r.len() {
                        assert(t[i] == r[i]);
                    }
                }
                if has_character(r, n) {
                    let i = choose|i: int| 0 <= i < r.len() && (#[trigger] r[i]).name == n;
                    assert(t[i] == r[i]);
                }
                if n == l.name {
                    assert(t[r.len() as int] == l);
                }
            }
            assert forall|j: int| 0 <= j < t.len() implies exists|i: int|
                0 <= i < cs.len() && cs[i] == #[trigger] t[j] by {
                if j < r.len() {
                    assert(t[j] == r[j]);
                    let i = choose|i: int| 0 <= i < d.len() && d[i] == #[trigger] r[j];
                    assert(cs[i] == d[i]);
                } else {
                    assert(cs[cs.len() - 1] == t[j]);
                }
            }
        } else {
            assert(r == keep_present(cs, names));
            assert forall|j: int| 0 <= j < r.len() implies exists|i: int|
                0 <= i < cs.len() && cs[i] == #[trigger] r[j] by {
                let i = choose|i: int| 0 <= i < d.len() && d[i] == #[trigger] r[j];
                assert(cs[i] == d[i]);
            }
        }
    }
}

proof fn lemma_welcome(cs: Seq<CharacterView>, names: Seq<Seq<char>>)
    requires
        characters_wf(cs),
    ensures
        characters_wf(welcome(cs, names)),
        forall|n: Seq<char>|
            has_character(welcome(cs, names), n) <==> (has_character(cs, n) || (names.contains(n)
                && n.len() > 0)),
        forall|n: Seq<char>|
            has_character(cs, n) ==> character_named(welcome(cs, names), n) == character_named(
                cs,
                n,
            ),
        forall|n: Seq<char>|
            !has_character(cs, n) && has_character(welcome(cs, names), n) ==> character_named(
                welcome(cs, names),
                n,
            ) == Some(newcomer(n)),
    decreases names.len(),
{
    if names.len() > 0 {
        let dn = names.drop_last();
        lemma_welcome(cs, dn);
        let r = welcome(cs, dn);
        let u = names.last();
        assert forall|n: Seq<char>| names.contains(n) <==> (dn.contains(n) || n == u) by {
            if names.contains(n) {
                let i = choose|i: int| 0 <= i < names.len() && names[i] == n;
                if i < dn.len() {
                    assert(dn[i] == names[i]);
                }
            }
            if dn.contains(n) {
                let i = choose|i: int| 0 <= i < dn.len() && dn[i] == n;
                assert(names[i] == dn[i]);
            }
            if n == u {
                assert(names[names.len() - 1] == u);
            }
        }
        if !(u.len() == 0 || has_character(r, u)) {
            let t = r.push(newcomer(u));
            assert(t == welcome(cs, names));
            assert forall|a: int, b: int| 0 <= a < b < t.len() implies (#[trigger] t[a]).name
                != (#[trigger] t[b]).name by {
                if b == r.len() {
                    assert(t[a] == r[a]);
                    assert(has_character(r, r[a].name));
                } else {
                    assert(t[a] == r[a] && t[b] == r[b]);
                }
            }
            assert forall|a: int| 0 <= a < t.len() implies inventory_wf(
                #[trigger] t[a].inventory,
            ) by {
                if a < r.len() {
                    assert(t[a] == r[a]);
                } else {
                    assert(t[a] == newcomer(u));
                }
            }
            assert forall|n: Seq<char>| has_character(t, n) <==> (has_character(r, n) || n == u) by {
                if has_character(t, n) {
                    let i = choose|i: int| 0 <= i < t.len() && (#[trigger] t[i]).name == n;
                    if i < r.len() {
                        assert(t[i] == r[i]);
                    }
                }
                if has_character(r, n) {
                    let i = choose|i: int| 0 <= i < r.len() && (#[trigger] r[i]).name == n;
                    assert(t[i] == r[i]);
                }
                if n == u {
                    assert(t[r.len() as int].name == u);
                }
            }
            assert forall|n: Seq<char>| has_character(r, n) implies character_named(t, n)
                == character_named(r, n) by {
                let i = character_index(r, n);
                assert(t[i] == r[i]);
                lemma_named_at(t, i);
                lemma_named_at(r, i);
            }
            lemma_named_at(t, r.len() as int);
        }
    }
}

/// After a roll call, exactly the users present are characters (a new name
/// only if it is not empty); everyone who stayed is as before; and everyone
/// new is a newcomer with the starting coins.
pub proof fn law_roll_call(cs: Seq<CharacterView>, names: Seq<Seq<char>>, n: Seq<char>)
    requires
        characters_wf(cs),
    ensures
        characters_wf(roll_call(cs, names)),
        has_character(roll_call(cs, names), n) <==> (names.contains(n) && (has_character(cs, n)
            || n.len() > 0)),
        names.contains(n) && has_character(cs, n) ==> character_named(roll_call(cs, names), n)
            == character_named(cs, n),
        names.contains(n) && !has_character(cs, n) && n.len() > 0 ==> character_named(
            roll_call(cs, names),
            n,
        ) == Some(newcomer(n)),
{
    lemma_keep_present(cs, names);
    let kp = keep_present(cs, names);
    lemma_welcome(kp, names);
    if has_character(kp, n) {
        let j = character_index(kp, n);
        let i = choose|i: int| 0 <= i < cs.len() && cs[i] == #[trigger] kp[j];
        lemma_named_at(kp, j);
        lemma_named_at(cs, i);
    }
}

/// In a collection without two items of one name, the item put last under a
/// name is the one found under it.
pub proof fn lemma_put_item_found(items: Seq<ItemView>, it: ItemView)
    requires
        items_wf(items),
    ensures
        item_named(put_item(items, it), it.name) == Some(it),
{
    let t = put_item(items, it);
    if has_item(items, it.name) {
        let i = item_index(items, it.name);
        assert(t[i] == it);
        assert(has_item(t, it.name));
        let c = item_index(t, it.name);
        if c != i {
            assert(t[c] == items[c]);
            if c < i {
                assert(items[c].name != items[i].name);
            } else {
                assert(items[i].name != items[c].name);
            }
        }
    } else {
        assert(t[items.len() as int] == it);
        assert(has_item(t, it.name));
        let c = item_index(t, it.name);
        if c < items.len() {
            assert(t[c] == items[c]);
        }
    }
}

/// Only the creator of an item can make more of it, and whoever makes an item
/// is from then on its creator.
pub proof fn law_make_credits_creator(
    source: Seq<char>,
    args: Seq<Seq<char>>,
    items: Seq<ItemView>,
    cs: Seq<CharacterView>,
)
    requires
        items_wf(items),
    ensures
        make_refusal(source, args, items, cs) is None && has_item(items, made_item_name(args))
            ==> item_named(items, made_item_name(args))->0.creator_name == source,
        make_refusal(source, args, items, cs) is None ==> item_named(
            make_items(source, args, items, cs),
            made_item_name(args),
        ) == Some(
            ItemView {
                name: made_item_name(args),
                description: "mysterious"@,
                creator_name: source,
            },
        ),
{
    if make_refusal(source, args, items, cs) is None {
        lemma_put_item_found(
            items,
            ItemView {
                name: made_item_name(args),
                description: "mysterious"@,
                creator_name: source,
            },
        );
    }
}

/// Greeting, looking, the unfinished commands, quitting and anything that is
/// not a command leave the world as it was.
pub proof fn law_queries_change_nothing(
    source: Seq<char>,
    words: Seq<Seq<char>>,
    items: Seq<ItemView>,
    cs: Seq<CharacterView>,
)
    requires
        words.len() > 0,
        words[0] == "hi"@ || words[0] == "look"@ || words[0] == "equip"@ || words[0] == "bid"@
            || words[0] == "quit"@ || dispatch_outcome(source, words, items, cs) is Ignore,
    ensures
        dispatch_items(source, words, items, cs) == items,
        dispatch_characters(source, words, items, cs) == cs,
{
    lemma_command_words_differ();
}

/// The command words differ from one another in length or in their first
/// character.
pub proof fn lemma_command_words_differ()
    ensures
        "hi"@.len() == 2 && "hi"@[0] == 'h',
        "I"@.len() == 1 && "I"@[0] == 'I',
        "a"@.len() == 1 && "a"@[0] == 'a',
        "an"@.len() == 2 && "an"@[0] == 'a',
        "make"@.len() == 4 && "make"@[0] == 'm',
        "create"@.len() == 6 && "create"@[0] == 'c',
        "craft"@.len() == 5 && "craft"@[0] == 'c',
        "look"@.len() == 4 && "look"@[0] == 'l',
        "equip"@.len() == 5 && "equip"@[0] == 'e',
        "give"@.len() == 4 && "give"@[0] == 'g',
        "bid"@.len() == 3 && "bid"@[0] == 'b',
        "quit"@.len() == 4 && "quit"@[0] == 'q',
{
    reveal_strlit("hi");
    assert("hi"@.len() == 2 && "hi"@[0] == 'h');
    reveal_strlit("I");
    assert("I"@.len() == 1 && "I"@[0] == 'I');
    reveal_strlit("a");
    assert("a"@.len() == 1 && "a"@[0] == 'a');
    reveal_strlit("an");
    assert("an"@.len() == 2 && "an"@[0] == 'a');
    reveal_strlit("make");
    assert("make"@.len() == 4 && "make"@[0] == 'm');
    reveal_strlit("create");
    assert("create"@.len() == 6 && "create"@[0] == 'c');
    reveal_strlit("craft");
    assert("craft"@.len() == 5 && "craft"@[0] == 'c');
    reveal_strlit("look");
    assert("look"@.len() == 4 && "look"@[0] == 'l');
    reveal_strlit("equip");
    assert("equip"@.len() == 5 && "equip"@[0] == 'e');
    reveal_strlit("give");
    assert("give"@.len() == 4 && "give"@[0] == 'g');
    reveal_strlit("bid");
    assert("bid"@.len() == 3 && "bid"@[0] == 'b');
    reveal_strlit("quit");
    assert("quit"@.len() == 4 && "quit"@[0] == 'q');
}

/// `quit` is the end of the session: it is what `quit`, and nothing else,
/// answers, it answers no reply, and it leaves the world as it was.
pub proof fn law_quit_ends_the_session(
    source: Seq<char>,
    words: Seq<Seq<char>>,
    items: Seq<ItemView>,
    cs: Seq<CharacterView>,
)
    requires
        words.len() > 0,
    ensures
        (dispatch_outcome(source, words, items, cs) == OutcomeView::Quit) <==> words[0] == "quit"@,
        words[0] == "quit"@ ==> dispatch_items(source, words, items, cs) == items
            && dispatch_characters(source, words, items, cs) == cs,
{
    lemma_command_words_differ();
}

/// `create` and `craft` do exactly what `make` does with the same words.
pub proof fn law_create_and_craft_are_make(
    source: Seq<char>,
    w: Seq<char>,
    rest: Seq<Seq<char>>,
    items: Seq<ItemView>,
    cs: Seq<CharacterView>,
)
    requires
        w == "create"@ || w == "craft"@,
    ensures
        dispatch_outcome(source, seq![w] + rest, items, cs) == dispatch_outcome(
            source,
            seq!["make"@] + rest,
            items,
            cs,
        ),
        dispatch_items(source, seq![w] + rest, items, cs) == dispatch_items(
            source,
            seq!["make"@] + rest,
            items,
            cs,
        ),
        dispatch_characters(source, seq![w] + rest, items, cs) == dispatch_characters(
            source,
            seq!["make"@] + rest,
            items,
            cs,
        ),
        dispatch_overflows(source, seq![w] + rest, items, cs) == dispatch_overflows(
            source,
            seq!["make"@] + rest,
            items,
            cs,
        ),
{
    lemma_command_words_differ();
    let same_as = seq!["make"@] + rest;
    let words = seq![w] + rest;
    assert(words.drop_first() =~= rest);
    assert(same_as.drop_first() =~= rest);
    assert(words[0] == w);
    assert(same_as[0] == "make"@);
}

/// Only the maker of an item, while carrying it, can change its description;
/// every refusal leaves the items as they were.
pub proof fn law_only_the_maker_describes(
    source: Seq<char>,
    args: Seq<Seq<char>>,
    items: Seq<ItemView>,
    cs: Seq<CharacterView>,
)
    ensures
        describe_refusal(source, args, items, cs) is None ==> {
            &&& item_named(items, described_item_name(args))->0.creator_name == source
            &&& holds(character_named(cs, source)->0.inventory, described_item_name(args))
        },
        describe_refusal(source, args, items, cs) is Some ==> describe_items(
            source,
            args,
            items,
            cs,
        ) == items,
{
}

/// Dropping a word of `stop` from anywhere in `ws` does not change which words
/// are kept.
pub proof fn lemma_keep_words_insert(
    ws: Seq<Seq<char>>,
    i: int,
    w: Seq<char>,
    stop: Seq<Seq<char>>,
)
    requires
        0 <= i <= ws.len(),
        stop.contains(w),
    ensures
        keep_words(ws.insert(i, w), stop) == keep_words(ws, stop),
    decreases ws.len(),
{
    let t = ws.insert(i, w);
    if i == ws.len() {
        assert(t.drop_last() =~= ws);
        assert(t.last() == w);
    } else {
        assert(t.drop_last() =~= ws.drop_last().insert(i, w));
        assert(t.last() == ws.last());
        lemma_keep_words_insert(ws.drop_last(), i, w, stop);
    }
}

/// `give` pays no heed to the words "my", "MY", "a", "A", "an" and "AN": with
/// one of them put anywhere among its words, it answers and moves the same.
pub proof fn law_give_ignores_articles(
    source: Seq<char>,
    args: Seq<Seq<char>>,
    i: int,
    article: Seq<char>,
    items: Seq<ItemView>,
    cs: Seq<CharacterView>,
)
    requires
        0 <= i <= args.len(),
        article == "my"@ || article == "MY"@ || article == "a"@ || article == "A"@ || article
            == "an"@ || article == "AN"@,
    ensures
        give_reply(source, args.insert(i, article), items, cs) == give_reply(
            source,
            args,
            items,
            cs,
        ),
        give_characters(source, args.insert(i, article), items, cs) == give_characters(
            source,
            args,
            items,
            cs,
        ),
{
    let stop = seq!["my"@, "MY"@, "a"@, "A"@, "an"@, "AN"@];
    assert(stop[0] == "my"@ && stop[1] == "MY"@ && stop[2] == "a"@);
    assert(stop[3] == "A"@ && stop[4] == "an"@ && stop[5] == "AN"@);
    assert(stop.contains(article));
    assert(crate::commands::article_words() == stop);
    lemma_keep_words_insert(args, i, article, stop);
}

/// What a look at someone says of what they carry, in the voice given by
/// `lead` (where they carry something) and `none` (where they carry nothing).
pub open spec fn carried_sentence(inv: Seq<StackView>, lead: Seq<char>, none: Seq<char>) -> Seq<
    char,
> {
    if inv.len() > 0 {
        lead + stack_phrases(inv, inv.len() as int)
    } else {
        none
    }
}

/// A look at a person speaks in the right voice: of the speaker as "you", of
/// the bot as "I", and of anyone else by name as "they".
pub proof fn law_look_speaks_in_the_right_voice(
    source: Seq<char>,
    who: Seq<char>,
    items: Seq<ItemView>,
    cs: Seq<CharacterView>,
)
    ensures
        character_named(cs, source) matches Some(c) ==> look_reply(
            source,
            seq!["at"@, "me"@],
            items,
            cs,
        ) == source + ", you are "@ + c.description + ". "@ + carried_sentence(
            c.inventory,
            "You have on your person: "@,
            "You have nothing to your name!"@,
        ),
        source != "irken"@ ==> (character_named(cs, "irken"@) matches Some(c) ==> look_reply(
            source,
            seq!["at"@, "irken"@],
            items,
            cs,
        ) == "I am "@ + c.description + ". "@ + carried_sentence(
            c.inventory,
            "I have on my person: "@,
            "I have nothing to my name!"@,
        )),
        who != "me"@ && who != "myself"@ && who != source && who != "irken"@ ==> (character_named(
            cs,
            who,
        ) matches Some(c) ==> look_reply(source, seq!["at"@, who], items, cs) == who + " is "@
            + c.description + ". "@ + carried_sentence(
            c.inventory,
            "They have on their person: "@,
            "They have nothing to their name!"@,
        )),
{
    reveal_strlit("at");
    reveal_strlit("me");
    reveal_strlit("myself");
    reveal_strlit("irken");
    assert("at"@.len() == 2 && "at"@[0] == 'a');
    assert("me"@.len() == 2 && "me"@[0] == 'm');
    assert("irken"@.len() == 5 && "myself"@.len() == 6);
    let sm = seq!["at"@, "me"@];
    let sb = seq!["at"@, "irken"@];
    let so = seq!["at"@, who];
    assert(sm[0] == "at"@ && sm[1] == "me"@ && sm.len() == 2);
    assert(sb[0] == "at"@ && sb[1] == "irken"@ && sb.len() == 2);
    assert(so[0] == "at"@ && so[1] == who && so.len() == 2);
    if has_character(cs, source) {
        assert(cs[character_index(cs, source)].name == source);
    }
    if has_character(cs, who) {
        assert(cs[character_index(cs, who)].name == who);
    }
}

/// A command word "an" does exactly what "a" does: both describe an item.
pub proof fn law_an_is_a(
    source: Seq<char>,
    rest: Seq<Seq<char>>,
    items: Seq<ItemView>,
    cs: Seq<CharacterView>,
)
    ensures
        dispatch_outcome(source, seq!["an"@] + rest, items, cs) == dispatch_outcome(
            source,
            seq!["a"@] + rest,
            items,
            cs,
        ),
        dispatch_outcome(source, seq!["a"@] + rest, items, cs) is Reply,
        dispatch_items(source, seq!["an"@] + rest, items, cs) == dispatch_items(
            source,
            seq!["a"@] + rest,
            items,
            cs,
        ),
        dispatch_characters(source, seq!["an"@] + rest, items, cs) == cs,
        dispatch_characters(source, seq!["a"@] + rest, items, cs) == cs,
{
    lemma_command_words_differ();
    let wa = seq!["a"@] + rest;
    let wn = seq!["an"@] + rest;
    assert(wa.drop_first() =~= rest);
    assert(wn.drop_first() =~= rest);
    assert(wa[0] == "a"@);
    assert(wn[0] == "an"@);
}

/// "hi" greets whoever says it, by name, whatever follows it.
pub proof fn law_hi_greets_the_speaker(
    source: Seq<char>,
    rest: Seq<Seq<char>>,
    items: Seq<ItemView>,
    cs: Seq<CharacterView>,
)
    ensures
        dispatch_outcome(source, seq!["hi"@] + rest, items, cs) == OutcomeView::Reply(
            "Hi "@ + source + "!"@,
        ),
        dispatch_items(source, seq!["hi"@] + rest, items, cs) == items,
        dispatch_characters(source, seq!["hi"@] + rest, items, cs) == cs,
{
    lemma_command_words_differ();
    let w = seq!["hi"@] + rest;
    assert(w[0] == "hi"@);
}

/// `I` changes no one but the speaker, and nobody comes or goes; where it
/// agrees, the speaker has the new description and keeps what they carry.
pub proof fn law_i_describes_only_the_speaker(
    source: Seq<char>,
    args: Seq<Seq<char>>,
    cs: Seq<CharacterView>,
    n: Seq<char>,
)
    requires
        characters_wf(cs),
    ensures
        characters_wf(i_characters(source, args, cs)),
        has_character(i_characters(source, args, cs), n) == has_character(cs, n),
        n != source ==> character_named(i_characters(source, args, cs), n) == character_named(
            cs,
            n,
        ),
        i_reply(source, args, cs) == source + ", I agree completely."@ ==> {
            &&& has_character(cs, source)
            &&& character_named(i_characters(source, args, cs), source) == Some(
                CharacterView {
                    description: self_description(args),
                    ..character_named(cs, source)->0
                },
            )
        },
        i_reply(source, args, cs) != source + ", I agree completely."@ ==> i_characters(
            source,
            args,
            cs,
        ) == cs,
{
    reveal_strlit("YOU. ARE. NOT. WORTHY. ALSO THIS IS A BUG.");
    reveal_strlit("YOU.");
    reveal_strlit("YOU IS WHAT.");
    reveal_strlit("WHAT IS YOU SAY MOTHER FUCKER.");
    reveal_strlit(", I agree completely.");
    let agree = source + ", I agree completely."@;
    assert(agree.len() >= 20);
    assert("YOU. ARE. NOT. WORTHY. ALSO THIS IS A BUG."@.len() == 42);
    assert(agree[agree.len() - 1] == '.' && agree[agree.len() - 2] == 'y');
    assert("YOU. ARE. NOT. WORTHY. ALSO THIS IS A BUG."@[41] == '.');
    assert("YOU. ARE. NOT. WORTHY. ALSO THIS IS A BUG."@[40] == 'G');
    assert("YOU."@.len() == 4 && "YOU IS WHAT."@.len() == 12);
    assert("WHAT IS YOU SAY MOTHER FUCKER."@.len() == 30);
    assert("WHAT IS YOU SAY MOTHER FUCKER."@[28] == 'R');
    let after = i_characters(source, args, cs);
    if after != cs {
        let i = character_index(cs, source);
        let c = CharacterView { description: self_description(args), ..cs[i] };
        assert(after == cs.update(i, c));
        lemma_characters_wf_update(cs, i, c);
        assert(has_character(after, n) == has_character(cs, n)) by {
            if has_character(cs, n) {
                let j = character_index(cs, n);
                assert(after[j].name == n);
            }
            if has_character(after, n) {
                let j = character_index(after, n);
                assert(cs[j].name == n);
            }
        }
        if n != source && has_character(cs, n) {
            let j = character_index(cs, n);
            assert(j != i);
            assert(after[j] == cs[j]);
            lemma_named_at(after, j);
        }
        lemma_named_at(after, i);
        assert(after[i] == c);
    }
}

/// Where two rooms have the same names at the same places and no name twice,
/// a name is found in both or in neither, and at the same place.
pub proof fn lemma_same_names(a: Seq<CharacterView>, b: Seq<CharacterView>, n: Seq<char>)
    requires
        characters_wf(a),
        a.len() == b.len(),
        forall|k: int| 0 <= k < a.len() ==> (#[trigger] b[k]).name == a[k].name,
    ensures
        has_character(b, n) == has_character(a, n),
        has_character(a, n) ==> character_index(b, n) == character_index(a, n),
{
    if has_character(a, n) {
        let i = character_index(a, n);
        assert(b[i].name == n);
        let k = character_index(b, n);
        assert(a[k].name == n);
        if k != i {
            if k < i {
                assert(a[k].name != a[i].name);
            } else {
                assert(a[i].name != a[k].name);
            }
        }
    }
    if has_character(b, n) {
        let k = character_index(b, n);
        assert(a[k].name == n);
    }
}

/// Where `give` answers "Done!", the speaker carries one piece of the item
/// less and the receiver one piece more; nobody else changes, and nobody
/// comes or goes. Every other answer leaves the room as it was.
pub proof fn law_give_moves_one_piece(
    source: Seq<char>,
    args: Seq<Seq<char>>,
    items: Seq<ItemView>,
    cs: Seq<CharacterView>,
    n: Seq<char>,
)
    requires
        characters_wf(cs),
    ensures
        give_reply(source, args, items, cs) != "Done!"@ ==> give_characters(source, args, items, cs)
            == cs,
        give_reply(source, args, items, cs) == "Done!"@ ==> {
            let after = give_characters(source, args, items, cs);
            let item = give_item_name(args);
            let to = give_receiver(args);
            &&& has_character(cs, source) && has_character(cs, to)
            &&& has_character(after, n) == has_character(cs, n)
            &&& has_character(cs, n) ==> quantity(character_named(after, n)->0.inventory, item)
                + same(n, source) == quantity(character_named(cs, n)->0.inventory, item) + same(
                n,
                to,
            )
            &&& n != source && n != to ==> character_named(after, n) == character_named(cs, n)
        },
{
    reveal_strlit("Done!");
    reveal_strlit("POR QUE ENGLAISE.");
    reveal_strlit("Don't start making shit up ");
    reveal_strlit("Fuck you, get your own ");
    reveal_strlit(": who?");
    reveal_strlit("pls, you don't even HAVE a ");
    reveal_strlit(": the fuck is a ");
    reveal_strlit(" can't hold all of these ");
    assert("Done!"@.len() == 5);
    assert("POR QUE ENGLAISE."@.len() == 17);
    assert("Don't start making shit up "@.len() == 27);
    assert("Fuck you, get your own "@.len() == 23);
    assert(": who?"@.len() == 6);
    assert("pls, you don't even HAVE a "@.len() == 27);
    assert(": the fuck is a "@.len() == 16);
    assert(" can't hold all of these "@.len() == 25);
    if give_refusal(source, args, items, cs) is None {
        let item = give_item_name(args);
        let to = give_receiver(args);
        let gi = character_index(cs, source);
        let ri = character_index(cs, to);
        lemma_named_character_wf(cs, source);
        let giver = cs[gi];
        let given = CharacterView { inventory: remove_piece(giver.inventory, item), ..giver };
        let mid = cs.update(gi, given);
        if ri == gi {
            lemma_remove_piece_count(giver.inventory, item);
        } else {
            assert(mid[ri] == cs[ri]);
        }
        let receiver = mid[ri];
        let received = CharacterView { inventory: add_piece(receiver.inventory, item), ..receiver };
        let after = mid.update(ri, received);
        assert(give_characters(source, args, items, cs) == after);
        assert forall|k: int| 0 <= k < cs.len() implies (#[trigger] after[k]).name == cs[k].name by {
        }
        lemma_same_names(cs, after, n);
        if has_character(cs, n) {
            let j = character_index(cs, n);
            assert(cs[j].name == n);
            lemma_named_at(cs, j);
            assert forall|a: int, b: int| 0 <= a < b < after.len() implies (#[trigger] after[a]).name
                != (#[trigger] after[b]).name by {
                assert(after[a].name == cs[a].name && after[b].name == cs[b].name);
            }
            assert(character_named(after, n) == Some(after[j]));
            lemma_remove_piece_quantity(giver.inventory, item, item);
            lemma_add_piece_quantity(receiver.inventory, item, item);
            if j != gi && j != ri {
                assert(after[j] == cs[j]);
            } else if j == gi && j != ri {
                assert(after[j] == given);
            } else if j == ri && j != gi {
                assert(after[j] == received);
                assert(receiver == cs[j]);
            } else {
                assert(after[j] == received);
                assert(receiver == given);
            }
        }
    }
}

} // verus!

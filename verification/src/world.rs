//! The world of the game: crafted items, and the characters who carry them.
//!
//! Each collection keeps its entries in a vector, in the order in which they
//! were added, and finds an entry by its name. No two entries of one
//! collection share a name, and every stack that a character carries holds at
//! least one piece.
use vstd::prelude::*;

verus! {

/// A stack of an inventory: the name of an item and how many pieces of it.
pub type StackView = (Seq<char>, u64);

/// Whether the inventory `s` holds a stack of the item `k`.
pub open spec fn holds(s: Seq<StackView>, k: Seq<char>) -> bool {
    exists|i: int| 0 <= i < s.len() && (#[trigger] s[i]).0 == k
}

/// Where the stack of `k` stands in `s` (meaningful where `holds(s, k)`).
pub open spec fn stack_index(s: Seq<StackView>, k: Seq<char>) -> int {
    choose|i: int| 0 <= i < s.len() && (#[trigger] s[i]).0 == k
}

/// How many pieces of `k` the inventory `s` holds, or `None` if none.
pub open spec fn count_in(s: Seq<StackView>, k: Seq<char>) -> Option<u64> {
    if holds(s, k) {
        Some(s[stack_index(s, k)].1)
    } else {
        None
    }
}

/// An inventory holds at most one stack per item, and no empty stack.
pub open spec fn inventory_wf(s: Seq<StackView>) -> bool {
    &&& forall|i: int, j: int| 0 <= i < j < s.len() ==> (#[trigger] s[i]).0 != (#[trigger] s[j]).0
    &&& forall|i: int| 0 <= i < s.len() ==> (#[trigger] s[i]).1 >= 1
}

/// The inventory `s` with one more piece of `k`: the stack grows, or a new
/// stack of one piece is added at the end.
pub open spec fn add_piece(s: Seq<StackView>, k: Seq<char>) -> Seq<StackView> {
    if holds(s, k) {
        let i = stack_index(s, k);
        s.update(i, (k, (s[i].1 + 1) as u64))
    } else {
        s.push((k, 1u64))
    }
}

/// The inventory `s` with one piece of `k` less: the stack shrinks, or goes
/// away where it held one piece.
pub open spec fn remove_piece(s: Seq<StackView>, k: Seq<char>) -> Seq<StackView> {
    if holds(s, k) {
        let i = stack_index(s, k);
        if s[i].1 <= 1 {
            s.remove(i)
        } else {
            s.update(i, (k, (s[i].1 - 1) as u64))
        }
    } else {
        s
    }
}

/// The number of pieces of `k` in `s`, over all its stacks.
pub open spec fn quantity(s: Seq<StackView>, k: Seq<char>) -> nat
    decreases s.len(),
{
    if s.len() == 0 {
        0
    } else {
        quantity(s.drop_last(), k) + if s.last().0 == k {
            s.last().1 as nat
        } else {
            0
        }
    }
}

/// What a character carries: how many pieces of each item.
#[derive(Debug)]
pub struct Inventory {
    entries: Vec<(String, u64)>,
}

/// The view of the stacks of an inventory.
pub open spec fn stacks_view(entries: Seq<(String, u64)>) -> Seq<StackView> {
    entries.map_values(|e: (String, u64)| (e.0@, e.1))
}

impl View for Inventory {
    type V = Seq<StackView>;

    closed spec fn view(&self) -> Seq<StackView> {
        stacks_view(self.entries@)
    }
}

impl Inventory {
    /// Every inventory holds at most one stack per item, and no empty stack.
    #[verifier::type_invariant]
    pub open spec fn well_formed(&self) -> bool {
        inventory_wf(self@)
    }

    /// An empty inventory.
    pub fn new() -> (r: Inventory)
        ensures
            r@ == Seq::<StackView>::empty(),
    {
        let entries: Vec<(String, u64)> = Vec::new();
        assert(stacks_view(entries@) =~= Seq::<StackView>::empty());
        Inventory { entries }
    }

    /// An inventory of a single stack.
    pub fn single(name: String, count: u64) -> (r: Inventory)
        requires
            count >= 1,
        ensures
            r@ == seq![(name@, count)],
    {
        let mut entries: Vec<(String, u64)> = Vec::new();
        let ghost nv = name@;
        entries.push((name, count));
        assert(stacks_view(entries@) =~= seq![(nv, count)]);
        Inventory { entries }
    }

    /// The number of stacks.
    pub fn len(&self) -> (r: usize)
        ensures
            r == self@.len(),
    {
        self.entries.len()
    }

    /// The stack at position `i`.
    pub fn stack(&self, i: usize) -> (r: (&String, u64))
        requires
            i < self@.len(),
        ensures
            r.0@ == self@[i as int].0,
            r.1 == self@[i as int].1,
    {
        let e = &self.entries[i];
        (&e.0, e.1)
    }

    /// Where the stack of `k` stands, if there is one.
    pub fn find(&self, k: &str) -> (r: Option<usize>)
        ensures
            r is None <==> !holds(self@, k@),
            r matches Some(i) ==> i < self@.len() && i == stack_index(self@, k@) && self@[i as int].0
                == k@,
    {
        proof {
            use_type_invariant(self);
        }
        let mut i: usize = 0;
        while i < self.entries.len()
            invariant
                i <= self@.len(),
                self@.len() == self.entries@.len(),
                inventory_wf(self@),
                forall|j: int| 0 <= j < i ==> (#[trigger] self@[j]).0 != k@,
            decreases self.entries.len() - i,
        {
            assert(self@[i as int].0 == self.entries@[i as int].0@);
            if crate::text::str_eq(self.entries[i].0.as_str(), k) {
                proof {
                    assert(holds(self@, k@));
                    let c = stack_index(self@, k@);
                    assert(self@[c].0 == k@);
                    assert(self@[i as int].0 == k@);
                }
                return Some(i);
            }
            i = i + 1;
        }
        None
    }

    /// How many pieces of `k` this inventory holds, if any.
    pub fn get(&self, k: &str) -> (r: Option<u64>)
        ensures
            r == count_in(self@, k@),
    {
        match self.find(k) {
            Some(i) => Some(self.stack(i).1),
            None => None,
        }
    }

    /// Adds one piece of `k`.
    pub fn add_piece(&mut self, k: &str)
        requires
            count_in(old(self)@, k@) != Some(u64::MAX),
        ensures
            final(self)@ == add_piece(old(self)@, k@),
            inventory_wf(final(self)@),
    {
        proof {
            use_type_invariant(&*self);
        }
        let ghost s = self@;
        let found = self.find(k);
        let mut entries: Vec<(String, u64)> = Vec::new();
        std::mem::swap(&mut entries, &mut self.entries);
        assert(stacks_view(entries@) == s);
        match found {
            Some(i) => {
                let c = entries[i].1;
                entries.set(i, (k.to_owned(), c + 1));
            },
            None => {
                entries.push((k.to_owned(), 1));
            },
        }
        let ghost t = stacks_view(entries@);
        assert(t =~= add_piece(s, k@));
        proof {
            assert forall|i: int, j: int| 0 <= i < j < t.len() implies (#[trigger] t[i]).0 != (
            #[trigger] t[j]).0 by {
                if j == s.len() {
                    assert(s[i] == t[i]);
                }
            }
        }
        self.entries = entries;
    }

    /// Removes one piece of `k`.
    pub fn remove_piece(&mut self, k: &str)
        requires
            holds(old(self)@, k@),
        ensures
            final(self)@ == remove_piece(old(self)@, k@),
            inventory_wf(final(self)@),
    {
        proof {
            use_type_invariant(&*self);
        }
        let ghost s = self@;
        let i = self.find(k).unwrap();
        let mut entries: Vec<(String, u64)> = Vec::new();
        std::mem::swap(&mut entries, &mut self.entries);
        assert(stacks_view(entries@) == s);
        let c = entries[i].1;
        if c <= 1 {
            entries.remove(i);
            let ghost t = stacks_view(entries@);
            assert(t =~= s.remove(i as int));
            proof {
                assert forall|a: int, b: int| 0 <= a < b < t.len() implies (#[trigger] t[a]).0
                    != (#[trigger] t[b]).0 by {
                    let a2 = if a < i { a } else { a + 1 };
                    let b2 = if b < i { b } else { b + 1 };
                    assert(t[a] == s[a2]);
                    assert(t[b] == s[b2]);
                }
                assert forall|a: int| 0 <= a < t.len() implies (#[trigger] t[a]).1 >= 1 by {
                    let a2 = if a < i { a } else { a + 1 };
                    assert(t[a] == s[a2]);
                }
            }
        } else {
            entries.set(i, (k.to_owned(), c - 1));
            assert(stacks_view(entries@) =~= s.update(i as int, (k@, (c - 1) as u64)));
        }
        self.entries = entries;
    }
}

/// An item of the view: its name, its description and who made it.
pub struct ItemView {
    pub name: Seq<char>,
    pub description: Seq<char>,
    pub creator_name: Seq<char>,
}

/// An item that someone has crafted.
#[derive(Debug)]
pub struct Item {
    pub name: String,
    pub description: String,
    pub creator_name: String,
}

impl View for Item {
    type V = ItemView;

    open spec fn view(&self) -> ItemView {
        ItemView {
            name: self.name@,
            description: self.description@,
            creator_name: self.creator_name@,
        }
    }
}

/// Whether `s` holds an item named `k`.
pub open spec fn has_item(s: Seq<ItemView>, k: Seq<char>) -> bool {
    exists|i: int| 0 <= i < s.len() && (#[trigger] s[i]).name == k
}

/// Where the item named `k` stands in `s` (meaningful where `has_item(s, k)`).
pub open spec fn item_index(s: Seq<ItemView>, k: Seq<char>) -> int {
    choose|i: int| 0 <= i < s.len() && (#[trigger] s[i]).name == k
}

/// The item named `k`, if there is one.
pub open spec fn item_named(s: Seq<ItemView>, k: Seq<char>) -> Option<ItemView> {
    if has_item(s, k) {
        Some(s[item_index(s, k)])
    } else {
        None
    }
}

/// No two items share a name.
pub open spec fn items_wf(s: Seq<ItemView>) -> bool {
    forall|i: int, j: int| 0 <= i < j < s.len() ==> (#[trigger] s[i]).name != (#[trigger] s[j]).name
}

/// `s` with `it` in place of the item of the same name, or with `it` added at
/// the end if there is none.
pub open spec fn put_item(s: Seq<ItemView>, it: ItemView) -> Seq<ItemView> {
    if has_item(s, it.name) {
        s.update(item_index(s, it.name), it)
    } else {
        s.push(it)
    }
}

/// `s` with the description of the item named `k` replaced by `d`.
pub open spec fn describe_in(s: Seq<ItemView>, k: Seq<char>, d: Seq<char>) -> Seq<ItemView> {
    if has_item(s, k) {
        let i = item_index(s, k);
        s.update(i, ItemView { description: d, ..s[i] })
    } else {
        s
    }
}

/// All the items that have been crafted, each under its own name.
#[derive(Debug)]
pub struct Items {
    entries: Vec<Item>,
}

/// The view of the items of a collection.
pub open spec fn items_view(entries: Seq<Item>) -> Seq<ItemView> {
    entries.map_values(|it: Item| it@)
}

impl View for Items {
    type V = Seq<ItemView>;

    closed spec fn view(&self) -> Seq<ItemView> {
        items_view(self.entries@)
    }
}

impl Items {
    /// No two items share a name.
    #[verifier::type_invariant]
    pub open spec fn well_formed(&self) -> bool {
        items_wf(self@)
    }

    /// No items.
    pub fn new() -> (r: Items)
        ensures
            r@ == Seq::<ItemView>::empty(),
    {
        let entries: Vec<Item> = Vec::new();
        assert(items_view(entries@) =~= Seq::<ItemView>::empty());
        Items { entries }
    }

    /// The number of items.
    pub fn len(&self) -> (r: usize)
        ensures
            r == self@.len(),
    {
        self.entries.len()
    }

    /// Where the item named `k` stands, if there is one.
    pub fn find(&self, k: &str) -> (r: Option<usize>)
        ensures
            r is None <==> !has_item(self@, k@),
            r matches Some(i) ==> i < self@.len() && i == item_index(self@, k@) && self@[i as int].name
                == k@,
    {
        proof {
            use_type_invariant(self);
        }
        let mut i: usize = 0;
        while i < self.entries.len()
            invariant
                i <= self@.len(),
                self@.len() == self.entries@.len(),
                items_wf(self@),
                forall|j: int| 0 <= j < i ==> (#[trigger] self@[j]).name != k@,
            decreases self.entries.len() - i,
        {
            assert(self@[i as int] == self.entries@[i as int]@);
            if crate::text::str_eq(self.entries[i].name.as_str(), k) {
                proof {
                    assert(has_item(self@, k@));
                    let c = item_index(self@, k@);
                    assert(self@[c].name == k@);
                    assert(self@[i as int].name == k@);
                }
                return Some(i);
            }
            i = i + 1;
        }
        None
    }

    /// The item named `k`, if there is one.
    pub fn get(&self, k: &str) -> (r: Option<&Item>)
        ensures
            r is None <==> item_named(self@, k@) is None,
            r matches Some(it) ==> item_named(self@, k@) == Some(it@),
    {
        match self.find(k) {
            Some(i) => {
                assert(self@[i as int] == self.entries@[i as int]@);
                Some(&self.entries[i])
            },
            None => None,
        }
    }

    /// Whether there is an item named `k`.
    pub fn contains_key(&self, k: &str) -> (r: bool)
        ensures
            r == has_item(self@, k@),
    {
        self.find(k).is_some()
    }

    /// Puts `it` in place of the item of the same name, or adds it at the end.
    pub fn insert(&mut self, it: Item)
        ensures
            final(self)@ == put_item(old(self)@, it@),
            items_wf(final(self)@),
    {
        proof {
            use_type_invariant(&*self);
        }
        let ghost s = self@;
        let ghost v = it@;
        let found = self.find(it.name.as_str());
        let mut entries: Vec<Item> = Vec::new();
        std::mem::swap(&mut entries, &mut self.entries);
        assert(items_view(entries@) == s);
        match found {
            Some(i) => {
                entries.set(i, it);
                assert(items_view(entries@) =~= put_item(s, v));
            },
            None => {
                entries.push(it);
                let ghost t = items_view(entries@);
                assert(t =~= put_item(s, v));
                proof {
                    assert forall|a: int, b: int| 0 <= a < b < t.len() implies (
                    #[trigger] t[a]).name != (#[trigger] t[b]).name by {
                        if b == s.len() {
                            assert(s[a] == t[a]);
                        }
                    }
                }
            },
        }
        self.entries = entries;
    }

    /// Gives the item named `k` the description `d`.
    pub fn set_description(&mut self, k: &str, d: String)
        ensures
            final(self)@ == describe_in(old(self)@, k@, d@),
            items_wf(final(self)@),
    {
        proof {
            use_type_invariant(&*self);
        }
        let ghost s = self@;
        match self.find(k) {
            Some(i) => {
                let mut entries: Vec<Item> = Vec::new();
                std::mem::swap(&mut entries, &mut self.entries);
                assert(items_view(entries@) == s);
                let old_item = entries.remove(i);
                let Item { name, description: _, creator_name } = old_item;
                let ghost dv = d@;
                entries.insert(i, Item { name, description: d, creator_name });
                assert(items_view(entries@) =~= describe_in(s, k@, dv));
                self.entries = entries;
            },
            None => {},
        }
    }
}

/// A character of the view: name, description and inventory.
pub struct CharacterView {
    pub name: Seq<char>,
    pub description: Seq<char>,
    pub inventory: Seq<StackView>,
}

/// A person in the room, as the game knows them.
#[derive(Debug)]
pub struct Character {
    pub name: String,
    pub description: String,
    pub inventory: Inventory,
}

impl View for Character {
    type V = CharacterView;

    open spec fn view(&self) -> CharacterView {
        CharacterView {
            name: self.name@,
            description: self.description@,
            inventory: self.inventory@,
        }
    }
}

/// Whether `s` holds a character named `k`.
pub open spec fn has_character(s: Seq<CharacterView>, k: Seq<char>) -> bool {
    exists|i: int| 0 <= i < s.len() && (#[trigger] s[i]).name == k
}

/// Where the character named `k` stands in `s` (meaningful where
/// `has_character(s, k)`).
pub open spec fn character_index(s: Seq<CharacterView>, k: Seq<char>) -> int {
    choose|i: int| 0 <= i < s.len() && (#[trigger] s[i]).name == k
}

/// The character named `k`, if there is one.
pub open spec fn character_named(s: Seq<CharacterView>, k: Seq<char>) -> Option<CharacterView> {
    if has_character(s, k) {
        Some(s[character_index(s, k)])
    } else {
        None
    }
}

/// No two characters share a name, and every inventory is well formed.
pub open spec fn characters_wf(s: Seq<CharacterView>) -> bool {
    &&& forall|i: int, j: int| 0 <= i < j < s.len() ==> (#[trigger] s[i]).name != (#[trigger] s[j]).name
    &&& forall|i: int| 0 <= i < s.len() ==> inventory_wf(#[trigger] s[i].inventory)
}

/// The characters in the room.
#[derive(Debug)]
pub struct Characters {
    entries: Vec<Character>,
}

/// The view of the characters of a collection.
pub open spec fn characters_view(entries: Seq<Character>) -> Seq<CharacterView> {
    entries.map_values(|c: Character| c@)
}

impl View for Characters {
    type V = Seq<CharacterView>;

    closed spec fn view(&self) -> Seq<CharacterView> {
        characters_view(self.entries@)
    }
}

/// Adding a character of a new name, with a well-formed inventory, keeps a
/// collection well formed.
pub proof fn lemma_characters_wf_push(s: Seq<CharacterView>, c: CharacterView)
    requires
        characters_wf(s),
        !has_character(s, c.name),
        inventory_wf(c.inventory),
    ensures
        characters_wf(s.push(c)),
{
    let t = s.push(c);
    assert forall|a: int, b: int| 0 <= a < b < t.len() implies (#[trigger] t[a]).name != (
    #[trigger] t[b]).name by {
        if b == s.len() {
            assert(s[a] == t[a]);
        }
    }
    assert forall|a: int| 0 <= a < t.len() implies inventory_wf(#[trigger] t[a].inventory) by {
        if a < s.len() {
            assert(s[a] == t[a]);
        }
    }
}

/// Removing a character keeps a collection well formed.
pub proof fn lemma_characters_wf_remove(s: Seq<CharacterView>, i: int)
    requires
        characters_wf(s),
        0 <= i < s.len(),
    ensures
        characters_wf(s.remove(i)),
{
    let t = s.remove(i);
    assert forall|a: int, b: int| 0 <= a < b < t.len() implies (#[trigger] t[a]).name != (
    #[trigger] t[b]).name by {
        let a2 = if a < i { a } else { a + 1 };
        let b2 = if b < i { b } else { b + 1 };
        assert(t[a] == s[a2]);
        assert(t[b] == s[b2]);
    }
    assert forall|a: int| 0 <= a < t.len() implies inventory_wf(#[trigger] t[a].inventory) by {
        let a2 = if a < i { a } else { a + 1 };
        assert(t[a] == s[a2]);
    }
}

/// Replacing a character by one of the same name, with a well-formed
/// inventory, keeps a collection well formed.
pub proof fn lemma_characters_wf_update(s: Seq<CharacterView>, i: int, c: CharacterView)
    requires
        characters_wf(s),
        0 <= i < s.len(),
        c.name == s[i].name,
        inventory_wf(c.inventory),
    ensures
        characters_wf(s.update(i, c)),
{
    let t = s.update(i, c);
    assert forall|a: int, b: int| 0 <= a < b < t.len() implies (#[trigger] t[a]).name != (
    #[trigger] t[b]).name by {
        assert(s[a].name == t[a].name);
        assert(s[b].name == t[b].name);
    }
    assert forall|a: int| 0 <= a < t.len() implies inventory_wf(#[trigger] t[a].inventory) by {
        if a != i {
            assert(s[a].inventory == t[a].inventory);
        }
    }
}

impl Characters {
    /// No two characters share a name, and every inventory is well formed.
    #[verifier::type_invariant]
    pub open spec fn well_formed(&self) -> bool {
        characters_wf(self@)
    }

    /// Nobody.
    pub fn new() -> (r: Characters)
        ensures
            r@ == Seq::<CharacterView>::empty(),
    {
        let entries: Vec<Character> = Vec::new();
        assert(characters_view(entries@) =~= Seq::<CharacterView>::empty());
        Characters { entries }
    }

    /// The number of characters.
    pub fn len(&self) -> (r: usize)
        ensures
            r == self@.len(),
    {
        self.entries.len()
    }

    /// The character at position `i`.
    pub fn at(&self, i: usize) -> (r: &Character)
        requires
            i < self@.len(),
        ensures
            r@ == self@[i as int],
    {
        &self.entries[i]
    }

    /// Where the character named `k` stands, if there is one.
    pub fn find(&self, k: &str) -> (r: Option<usize>)
        ensures
            r is None <==> !has_character(self@, k@),
            r matches Some(i) ==> i < self@.len() && i == character_index(self@, k@)
                && self@[i as int].name == k@,
    {
        proof {
            use_type_invariant(self);
        }
        let mut i: usize = 0;
        while i < self.entries.len()
            invariant
                i <= self@.len(),
                self@.len() == self.entries@.len(),
                characters_wf(self@),
                forall|j: int| 0 <= j < i ==> (#[trigger] self@[j]).name != k@,
            decreases self.entries.len() - i,
        {
            assert(self@[i as int] == self.entries@[i as int]@);
            if crate::text::str_eq(self.entries[i].name.as_str(), k) {
                proof {
                    assert(has_character(self@, k@));
                    let c = character_index(self@, k@);
                    assert(self@[c].name == k@);
                    assert(self@[i as int].name == k@);
                }
                return Some(i);
            }
            i = i + 1;
        }
        None
    }

    /// The character named `k`, if there is one.
    pub fn get(&self, k: &str) -> (r: Option<&Character>)
        ensures
            r is None <==> character_named(self@, k@) is None,
            r matches Some(c) ==> character_named(self@, k@) == Some(c@),
    {
        match self.find(k) {
            Some(i) => Some(self.at(i)),
            None => None,
        }
    }

    /// Whether there is a character named `k`.
    pub fn contains_key(&self, k: &str) -> (r: bool)
        ensures
            r == has_character(self@, k@),
    {
        self.find(k).is_some()
    }

    /// Adds `c` at the end.
    pub fn push(&mut self, c: Character)
        requires
            !has_character(old(self)@, c@.name),
        ensures
            final(self)@ == old(self)@.push(c@),
            characters_wf(final(self)@),
    {
        proof {
            use_type_invariant(&*self);
            use_type_invariant(&c.inventory);
        }
        let ghost s = self@;
        let ghost v = c@;
        let mut entries: Vec<Character> = Vec::new();
        std::mem::swap(&mut entries, &mut self.entries);
        assert(characters_view(entries@) == s);
        entries.push(c);
        assert(characters_view(entries@) =~= s.push(v));
        proof {
            lemma_characters_wf_push(s, v);
        }
        self.entries = entries;
    }

    /// Removes the character at position `i`.
    pub fn remove(&mut self, i: usize)
        requires
            i < old(self)@.len(),
        ensures
            final(self)@ == old(self)@.remove(i as int),
            characters_wf(final(self)@),
    {
        proof {
            use_type_invariant(&*self);
        }
        let ghost s = self@;
        let mut entries: Vec<Character> = Vec::new();
        std::mem::swap(&mut entries, &mut self.entries);
        assert(characters_view(entries@) == s);
        entries.remove(i);
        assert(characters_view(entries@) =~= s.remove(i as int));
        proof {
            lemma_characters_wf_remove(s, i as int);
        }
        self.entries = entries;
    }

    /// Takes the character at position `i` out of the collection, and hands
    /// it over together with the other characters; the collection is left
    /// empty until `put_back`.
    fn take_at(&mut self, i: usize) -> (r: (Vec<Character>, Character))
        requires
            i < old(self)@.len(),
        ensures
            final(self)@ == Seq::<CharacterView>::empty(),
            characters_view(r.0@) == old(self)@.remove(i as int),
            r.1@ == old(self)@[i as int],
    {
        let ghost s = self@;
        let mut entries: Vec<Character> = Vec::new();
        std::mem::swap(&mut entries, &mut self.entries);
        assert(characters_view(entries@) == s);
        let c = entries.remove(i);
        assert(characters_view(entries@) =~= s.remove(i as int));
        assert(self@ =~= Seq::<CharacterView>::empty());
        (entries, c)
    }

    /// Puts `c` back at position `i` of `rest`, the collection that
    /// `take_at` left, and makes the result this collection.
    fn put_back(&mut self, rest: Vec<Character>, i: usize, c: Character, Ghost(s): Ghost<
        Seq<CharacterView>,
    >)
        requires
            characters_wf(s),
            i < s.len(),
            characters_view(rest@) == s.remove(i as int),
            c@.name == s[i as int].name,
            inventory_wf(c@.inventory),
        ensures
            final(self)@ == s.update(i as int, c@),
            characters_wf(final(self)@),
    {
        let ghost before = rest@;
        let mut entries = rest;
        let ghost cv = c@;
        assert(characters_view(entries@).len() == entries@.len());
        entries.insert(i, c);
        assert forall|j: int| 0 <= j < s.len() implies #[trigger] characters_view(entries@)[j]
            == s.update(i as int, cv)[j] by {
            if j < i {
                assert(entries@[j] == before[j]);
                assert(characters_view(before)[j] == s.remove(i as int)[j]);
            } else if j > i {
                assert(entries@[j] == before[j - 1]);
                assert(characters_view(before)[j - 1] == s.remove(i as int)[j - 1]);
            }
        }
        assert(characters_view(entries@) =~= s.update(i as int, cv));
        proof {
            lemma_characters_wf_update(s, i as int, cv);
        }
        self.entries = entries;
    }

    /// Gives the character at position `i` the description `d`.
    pub fn set_description(&mut self, i: usize, d: String)
        requires
            i < old(self)@.len(),
        ensures
            final(self)@ == old(self)@.update(
                i as int,
                CharacterView { description: d@, ..old(self)@[i as int] },
            ),
            characters_wf(final(self)@),
    {
        proof {
            use_type_invariant(&*self);
        }
        let ghost s = self@;
        let (rest, mut c) = self.take_at(i);
        c.description = d;
        self.put_back(rest, i, c, Ghost(s));
    }

    /// Adds one piece of `k` to the inventory of the character at position `i`.
    pub fn add_piece(&mut self, i: usize, k: &str)
        requires
            i < old(self)@.len(),
            count_in(old(self)@[i as int].inventory, k@) != Some(u64::MAX),
        ensures
            final(self)@ == old(self)@.update(
                i as int,
                CharacterView {
                    inventory: add_piece(old(self)@[i as int].inventory, k@),
                    ..old(self)@[i as int]
                },
            ),
            characters_wf(final(self)@),
    {
        proof {
            use_type_invariant(&*self);
        }
        let ghost s = self@;
        let (rest, mut c) = self.take_at(i);
        c.inventory.add_piece(k);
        self.put_back(rest, i, c, Ghost(s));
    }

    /// Removes one piece of `k` from the inventory of the character at
    /// position `i`.
    pub fn remove_piece(&mut self, i: usize, k: &str)
        requires
            i < old(self)@.len(),
            holds(old(self)@[i as int].inventory, k@),
        ensures
            final(self)@ == old(self)@.update(
                i as int,
                CharacterView {
                    inventory: remove_piece(old(self)@[i as int].inventory, k@),
                    ..old(self)@[i as int]
                },
            ),
            characters_wf(final(self)@),
    {
        proof {
            use_type_invariant(&*self);
        }
        let ghost s = self@;
        let (rest, mut c) = self.take_at(i);
        c.inventory.remove_piece(k);
        self.put_back(rest, i, c, Ghost(s));
    }
}

/// The inventory of a named character of a well-formed collection is well formed.
pub proof fn lemma_named_character_wf(s: Seq<CharacterView>, k: Seq<char>)
    requires
        characters_wf(s),
    ensures
        character_named(s, k) matches Some(c) ==> inventory_wf(c.inventory),
{
    if has_character(s, k) {
        let i = character_index(s, k);
        assert(inventory_wf(s[i].inventory));
    }
}

/// Taking a piece from a stack never leaves that stack at the largest count.
pub proof fn lemma_remove_piece_count(s: Seq<StackView>, k: Seq<char>)
    requires
        inventory_wf(s),
        holds(s, k),
    ensures
        count_in(remove_piece(s, k), k) != Some(u64::MAX),
{
    let i = stack_index(s, k);
    let t = remove_piece(s, k);
    if s[i].1 <= 1 {
        assert(t == s.remove(i));
        if holds(t, k) {
            let j = choose|j: int| 0 <= j < t.len() && (#[trigger] t[j]).0 == k;
            let j2 = if j < i { j } else { j + 1 };
            assert(t[j] == s[j2]);
            if j2 < i {
                assert(s[j2].0 != s[i].0);
            } else {
                assert(s[i].0 != s[j2].0);
            }
        }
    } else {
        assert(t == s.update(i, (k, (s[i].1 - 1) as u64)));
        assert(t[i].0 == k);
        assert(holds(t, k));
        let c = stack_index(t, k);
        if c != i {
            assert(t[c] == s[c]);
            if c < i {
                assert(s[c].0 != s[i].0);
            } else {
                assert(s[i].0 != s[c].0);
            }
        }
    }
}

} // verus!

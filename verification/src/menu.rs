//! The application menu, described once and rendered per platform.
//!
//! The menu is a platform-independent model that every renderer walks the
//! same way, so building a platform menu and updating it later cannot
//! disagree about which entry is which.

use vstd::prelude::*;

verus! {

/// One entry of a menu, carrying the action it stands for.
#[derive(Debug, PartialEq, Eq)]
pub enum Item<A> {
    Submenu { label: String, items: Vec<Item<A>> },
    Check { label: String, checked: bool, action: A },
    Command { label: String, action: A },
    /// An entry there is nothing to activate on.
    Pending(String),
    Separator,
}

/// One menu of the bar.
#[derive(Debug, PartialEq, Eq)]
pub struct Menu<A> {
    pub label: String,
    pub items: Vec<Item<A>>,
}

/// Every entry of `items`, each followed by the entries of its submenu, in
/// order.
pub open spec fn flat_items<A>(items: Seq<Item<A>>) -> Seq<Item<A>>
    decreases items,
{
    if items.len() == 0 {
        Seq::empty()
    } else {
        flat_items(items.drop_last()) + flat_item(items.last())
    }
}

/// An entry followed by the entries of its submenu, if it opens one.
pub open spec fn flat_item<A>(item: Item<A>) -> Seq<Item<A>>
    decreases item,
{
    match item {
        Item::Submenu { items, .. } => seq![item] + flat_items(items@),
        _ => seq![item],
    }
}

/// Every entry of every menu, in the order a renderer creates them.
pub open spec fn flat_menus<A>(menus: Seq<Menu<A>>) -> Seq<Item<A>>
    decreases menus.len(),
{
    if menus.len() == 0 {
        Seq::empty()
    } else {
        flat_menus(menus.drop_last()) + flat_items(menus.last().items@)
    }
}

/// How many entries `items` holds, counting the contents of each submenu and
/// the submenu itself.
pub open spec fn count_items<A>(items: Seq<Item<A>>) -> nat
    decreases items,
{
    if items.len() == 0 {
        0
    } else {
        count_items(items.drop_last()) + count_item(items.last())
    }
}

pub open spec fn count_item<A>(item: Item<A>) -> nat
    decreases item,
{
    match item {
        Item::Submenu { items, .. } => 1 + count_items(items@),
        _ => 1,
    }
}

/// Flattening keeps every entry: as many come out as the menu counts,
/// separators and submenus included.
pub proof fn lemma_flattening_counts_every_item<A>(items: Seq<Item<A>>)
    ensures
        flat_items(items).len() == count_items(items),
    decreases items,
{
    if items.len() > 0 {
        lemma_flattening_counts_every_item(items.drop_last());
        lemma_flattening_counts_item(items.last());
    }
}

pub proof fn lemma_flattening_counts_item<A>(item: Item<A>)
    ensures
        flat_item(item).len() == count_item(item),
    decreases item,
{
    match item {
        Item::Submenu { items, .. } => {
            lemma_flattening_counts_every_item(items@);
        },
        _ => {},
    }
}

/// The entries a list of references points at.
pub open spec fn entries<A>(references: Seq<&Item<A>>) -> Seq<Item<A>> {
    references.map_values(|reference: &Item<A>| *reference)
}

fn walk<'a, A>(items: &'a Vec<Item<A>>, out: &mut Vec<&'a Item<A>>)
    ensures
        entries(final(out)@) == entries(old(out)@) + flat_items(items@),
    decreases items@,
{
    let mut index: usize = 0;
    let ghost start = entries(out@);
    proof {
        assert(items@.take(0) =~= Seq::<Item<A>>::empty());
        assert(start + Seq::<Item<A>>::empty() =~= start);
    }
    while index < items.len()
        invariant
            index <= items@.len(),
            entries(out@) == start + flat_items(items@.take(index as int)),
        decreases items@.len() - index,
    {
        let item = &items[index];
        let ghost before = out@;
        out.push(item);
        match item {
            Item::Submenu { items: nested, .. } => {
                proof {
                    assert(decreases_to!(items@ => items@[index as int]));
                }
                walk(nested, out);
            },
            _ => {},
        }
        proof {
            assert(items@.take(index as int + 1).drop_last() =~= items@.take(index as int));
            assert(items@.take(index as int + 1).last() == items@[index as int]);
            assert(entries(out@) =~= start + flat_items(items@.take(index as int)) + flat_item(
                items@[index as int],
            ));
        }
        index += 1;
    }
    proof {
        assert(items@.take(index as int) =~= items@);
    }
}

/// Every item of every menu, in the order a renderer creates them: each
/// entry, then the contents of its submenu, then the next entry.
pub fn flatten<A>(menus: &[Menu<A>]) -> (flat: Vec<&Item<A>>)
    ensures
        entries(flat@) == flat_menus(menus@),
{
    let mut out: Vec<&Item<A>> = Vec::new();
    let mut index: usize = 0;
    proof {
        assert(entries(out@) =~= Seq::<Item<A>>::empty());
    }
    while index < menus.len()
        invariant
            index <= menus@.len(),
            entries(out@) == flat_menus(menus@.take(index as int)),
        decreases menus@.len() - index,
    {
        walk(&menus[index].items, &mut out);
        proof {
            assert(menus@.take(index as int + 1).drop_last() =~= menus@.take(index as int));
        }
        index += 1;
    }
    proof {
        assert(menus@.take(index as int) =~= menus@);
    }
    out
}

} // verus!

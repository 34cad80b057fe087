//! Choosing what to do next: run a command line, or ask the user to pick
//! from a menu.

use vstd::prelude::*;
use crate::registry::{
    flatten, flattened, last_named, lookup, unique_names, Dialog, DialogItem, DialogView,
    GroupView, ItemView,
};

verus! {

/// What is to be done next.
#[derive(Debug, PartialEq, Eq)]
pub enum Action {
    /// Show this menu, and go on with the item that the user picks.
    Prompt(Dialog),
    /// Run this command line.
    Spawn(String),
}

/// An action as plain text.
pub enum ActionView {
    Prompt(DialogView),
    Spawn(Seq<char>),
}

impl View for Action {
    type V = ActionView;

    open spec fn view(&self) -> ActionView {
        match self {
            Action::Prompt(dialog) => ActionView::Prompt(dialog@),
            Action::Spawn(command) => ActionView::Spawn(command@),
        }
    }
}

/// What choosing `item` leads to: a task runs its command line, a group
/// opens its menu.
pub open spec fn item_action(item: ItemView) -> ActionView {
    match item {
        ItemView::Task(task) => ActionView::Spawn(task.command),
        ItemView::Group(group) => ActionView::Prompt(group.dialog()),
    }
}

/// What picking the item at `selection` from `dialog` leads to; `None` where
/// the menu has no such item.
pub open spec fn selected(dialog: DialogView, selection: int) -> Option<ActionView> {
    if 0 <= selection < dialog.items.len() {
        Some(item_action(dialog.items[selection]))
    } else {
        None
    }
}

/// What an invocation leads to. With the key of an item, that item is
/// chosen, without a menu being shown for it. With no key, or with one that
/// no item has, the menu is shown.
pub open spec fn resolved(dialog: DialogView, key: Option<Seq<char>>) -> ActionView {
    match key {
        None => ActionView::Prompt(dialog),
        Some(name) => match last_named(flattened(dialog), name) {
            Some(item) => item_action(item),
            None => ActionView::Prompt(dialog),
        },
    }
}

/// An action, if any, taken by its view.
pub open spec fn action_view(action: Option<Action>) -> Option<ActionView> {
    match action {
        Some(action) => Some(action@),
        None => None,
    }
}

/// A key, if any, taken by its view.
pub open spec fn key_view(key: Option<&str>) -> Option<Seq<char>> {
    match key {
        Some(name) => Some(name@),
        None => None,
    }
}

/// Decides what choosing `item` leads to.
pub fn run_dialog_item(item: &DialogItem) -> (out: Action)
    ensures
        out@ == item_action(item@),
{
    match item {
        DialogItem::Task(task) => Action::Spawn(task.command.clone()),
        DialogItem::Group(group) => Action::Prompt(group.dialog()),
    }
}

/// Decides what picking the item at `selection` from `dialog` leads to.
pub fn run_dialog(dialog: &Dialog, selection: usize) -> (out: Option<Action>)
    ensures
        action_view(out) == selected(dialog@, selection as int),
{
    if selection < dialog.items.len() {
        Some(run_dialog_item(&dialog.items[selection]))
    } else {
        None
    }
}

/// Decides what an invocation leads to: `key` is the key named on the
/// command line, if one was.
pub fn resolve(dialog: &Dialog, key: Option<&str>) -> (out: Action)
    ensures
        out@ == resolved(dialog@, key_view(key)),
{
    match key {
        None => Action::Prompt(dialog.clone()),
        Some(name) => {
            let items = flatten(dialog);
            match lookup(&items, name) {
                Some(item) => run_dialog_item(item),
                None => Action::Prompt(dialog.clone()),
            }
        },
    }
}

/// Whether one of `items` has the key `key`.
pub open spec fn has_key(items: Seq<ItemView>, key: Seq<char>) -> bool {
    exists|i: int| 0 <= i < items.len() && (#[trigger] items[i]).name() == key
}

/// A key that no item has finds nothing, and a key that finds something is
/// the key of what it finds.
pub proof fn lemma_last_named_finds(items: Seq<ItemView>, key: Seq<char>)
    ensures
        last_named(items, key) is None <==> !has_key(items, key),
        last_named(items, key) matches Some(item) ==> item.name() == key && items.contains(item),
    decreases items.len(),
{
    if items.len() > 0 {
        let rest = items.drop_last();
        lemma_last_named_finds(rest, key);
        if items.last().name() == key {
            assert(items[items.len() - 1].name() == key);
        } else {
            if has_key(items, key) {
                let i = choose|i: int| 0 <= i < items.len() && (#[trigger] items[i]).name() == key;
                assert(rest[i].name() == key);
            }
            if has_key(rest, key) {
                let i = choose|i: int| 0 <= i < rest.len() && (#[trigger] rest[i]).name() == key;
                assert(items[i].name() == key);
            }
            if last_named(rest, key) is Some {
                let item = last_named(rest, key)->0;
                let i = choose|i: int| 0 <= i < rest.len() && rest[i] == item;
                assert(items[i] == item);
            }
        }
    }
}

/// Where no two items share a key, a key finds the one item that has it.
pub proof fn lemma_unique_name_finds(items: Seq<ItemView>, i: int)
    requires
        unique_names(items),
        0 <= i < items.len(),
    ensures
        last_named(items, items[i].name()) == Some(items[i]),
    decreases items.len(),
{
    if i < items.len() - 1 {
        let rest = items.drop_last();
        assert(items.last() == items[items.len() - 1]);
        assert(items[i].name() != items[items.len() - 1].name());
        assert forall|a: int, b: int| 0 <= a < b < rest.len() implies (#[trigger] rest[a]).name()
            != (#[trigger] rest[b]).name() by {
            assert(rest[a] == items[a] && rest[b] == items[b]);
        }
        assert(rest[i] == items[i]);
        lemma_unique_name_finds(rest, i);
    }
}

/// Invoking an item by its key chooses that item, with no menu shown to
/// find it: where no two keys of the registry are the same, the key of an
/// item leads to what choosing the item leads to. For a task that is its
/// command line.
pub proof fn lemma_direct_invocation(dialog: DialogView, i: int)
    requires
        unique_names(flattened(dialog)),
        0 <= i < flattened(dialog).len(),
    ensures
        resolved(dialog, Some(flattened(dialog)[i].name())) == item_action(flattened(dialog)[i]),
        flattened(dialog)[i] matches ItemView::Task(task) ==> resolved(
            dialog,
            Some(task.name),
        ) == ActionView::Spawn(task.command),
{
    lemma_unique_name_finds(flattened(dialog), i);
}

/// A key that no item of the registry has leads to the same as no key at
/// all: the menu is shown.
pub proof fn lemma_unknown_key_falls_back(dialog: DialogView, key: Seq<char>)
    requires
        !has_key(flattened(dialog), key),
    ensures
        resolved(dialog, Some(key)) == resolved(dialog, None),
        resolved(dialog, None) == ActionView::Prompt(dialog),
{
    lemma_last_named_finds(flattened(dialog), key);
}

/// Menus nest one level deep: whatever is picked from the menu of a group
/// is run.
pub proof fn lemma_group_menu_runs(group: GroupView, selection: int)
    requires
        0 <= selection < group.tasks.len(),
    ensures
        group.dialog().is_flat(),
        selected(group.dialog(), selection) == Some(
            ActionView::Spawn(group.tasks[selection].command),
        ),
{
}

} // verus!

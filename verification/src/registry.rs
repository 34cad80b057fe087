//! The registry of tasks: an ordered menu with one level of nesting, and the
//! lookup of a task by its key.

use vstd::prelude::*;
use vstd::string::StringExecFns;

verus! {

/// A task: a key, a label for menus and help texts, and the command line
/// that runs it.
#[derive(Debug, PartialEq, Eq)]
pub struct Task {
    /// The key by which the task is invoked directly.
    pub name: String,
    /// The label shown in menus.
    pub description: String,
    /// One or more sub-commands, separated by `;`.
    pub command: String,
}

/// A task that stands for a choice among other tasks.
#[derive(Debug, PartialEq, Eq)]
pub struct TaskGroup {
    /// The key by which the group is invoked directly.
    pub name: String,
    /// The label shown in menus.
    pub description: String,
    /// The question asked when the group has been chosen.
    pub prompt: String,
    /// The tasks to choose from, in menu order.
    pub tasks: Vec<Task>,
}

/// One line of a menu.
#[derive(Debug, PartialEq, Eq)]
pub enum DialogItem {
    /// A task that runs a command line.
    Task(Task),
    /// A group of tasks that opens a second menu.
    Group(TaskGroup),
}

/// A menu: a question and the items to choose from, in order.
#[derive(Debug, PartialEq, Eq)]
pub struct Dialog {
    /// The question asked.
    pub prompt: String,
    /// The items to choose from; the first is the default.
    pub items: Vec<DialogItem>,
}

/// A task as plain text.
pub struct TaskView {
    pub name: Seq<char>,
    pub description: Seq<char>,
    pub command: Seq<char>,
}

/// A group as plain text.
pub struct GroupView {
    pub name: Seq<char>,
    pub description: Seq<char>,
    pub prompt: Seq<char>,
    pub tasks: Seq<TaskView>,
}

/// A menu item as plain text.
pub enum ItemView {
    Task(TaskView),
    Group(GroupView),
}

/// A menu as plain text.
pub struct DialogView {
    pub prompt: Seq<char>,
    pub items: Seq<ItemView>,
}

impl View for Task {
    type V = TaskView;

    open spec fn view(&self) -> TaskView {
        TaskView { name: self.name@, description: self.description@, command: self.command@ }
    }
}

impl DeepView for Task {
    type V = TaskView;

    open spec fn deep_view(&self) -> TaskView {
        self@
    }
}

impl View for TaskGroup {
    type V = GroupView;

    open spec fn view(&self) -> GroupView {
        GroupView {
            name: self.name@,
            description: self.description@,
            prompt: self.prompt@,
            tasks: self.tasks.deep_view(),
        }
    }
}

impl View for DialogItem {
    type V = ItemView;

    open spec fn view(&self) -> ItemView {
        match self {
            DialogItem::Task(task) => ItemView::Task(task@),
            DialogItem::Group(group) => ItemView::Group(group@),
        }
    }
}

impl DeepView for DialogItem {
    type V = ItemView;

    open spec fn deep_view(&self) -> ItemView {
        self@
    }
}

impl View for Dialog {
    type V = DialogView;

    open spec fn view(&self) -> DialogView {
        DialogView { prompt: self.prompt@, items: self.items.deep_view() }
    }
}

impl ItemView {
    /// The key of the item.
    pub open spec fn name(self) -> Seq<char> {
        match self {
            ItemView::Task(task) => task.name,
            ItemView::Group(group) => group.name,
        }
    }

    /// The label of the item.
    pub open spec fn description(self) -> Seq<char> {
        match self {
            ItemView::Task(task) => task.description,
            ItemView::Group(group) => group.description,
        }
    }

    /// The tasks below the item, as menu items: those of a group, none for
    /// a task.
    pub open spec fn children(self) -> Seq<ItemView> {
        match self {
            ItemView::Task(_) => Seq::empty(),
            ItemView::Group(group) => group.tasks.map_values(|task: TaskView| ItemView::Task(task)),
        }
    }
}

impl GroupView {
    /// The menu that the group opens.
    pub open spec fn dialog(self) -> DialogView {
        DialogView {
            prompt: self.prompt,
            items: self.tasks.map_values(|task: TaskView| ItemView::Task(task)),
        }
    }
}

impl DialogView {
    /// Whether every item of the menu is a task.
    pub open spec fn is_flat(self) -> bool {
        forall|i: int| 0 <= i < self.items.len() ==> #[trigger] self.items[i] is Task
    }

    /// The labels of the items, in order.
    pub open spec fn labels(self) -> Seq<Seq<char>> {
        self.items.map_values(|item: ItemView| item.description())
    }
}

impl Clone for Task {
    fn clone(&self) -> (out: Self)
        ensures
            out@ == self@,
    {
        Task {
            name: self.name.clone(),
            description: self.description.clone(),
            command: self.command.clone(),
        }
    }
}

/// Copies a list of tasks.
fn clone_tasks(tasks: &Vec<Task>) -> (out: Vec<Task>)
    ensures
        out.deep_view() == tasks.deep_view(),
{
    let mut out: Vec<Task> = Vec::new();
    let mut i: usize = 0;
    while i < tasks.len()
        invariant
            i <= tasks.len(),
            out.len() == i,
            forall|j: int| 0 <= j < i ==> out@[j]@ == tasks@[j]@,
        decreases tasks.len() - i,
    {
        out.push(tasks[i].clone());
        i += 1;
    }
    proof {
        assert(out.deep_view() =~= tasks.deep_view());
    }
    out
}

impl Clone for TaskGroup {
    fn clone(&self) -> (out: Self)
        ensures
            out@ == self@,
    {
        TaskGroup {
            name: self.name.clone(),
            description: self.description.clone(),
            prompt: self.prompt.clone(),
            tasks: clone_tasks(&self.tasks),
        }
    }
}

impl Clone for DialogItem {
    fn clone(&self) -> (out: Self)
        ensures
            out@ == self@,
    {
        match self {
            DialogItem::Task(task) => DialogItem::Task(task.clone()),
            DialogItem::Group(group) => DialogItem::Group(group.clone()),
        }
    }
}

impl Clone for Dialog {
    fn clone(&self) -> (out: Self)
        ensures
            out@ == self@,
    {
        let mut items: Vec<DialogItem> = Vec::new();
        let mut i: usize = 0;
        while i < self.items.len()
            invariant
                i <= self.items.len(),
                items.len() == i,
                forall|j: int| 0 <= j < i ==> items@[j]@ == self.items@[j]@,
            decreases self.items.len() - i,
        {
            items.push(self.items[i].clone());
            i += 1;
        }
        proof {
            assert(items.deep_view() =~= self.items.deep_view());
        }
        Dialog { prompt: self.prompt.clone(), items }
    }
}

impl DialogItem {
    /// The key of the item.
    pub fn name(&self) -> (out: &str)
        ensures
            out@ == self@.name(),
    {
        match self {
            DialogItem::Task(task) => task.name.as_str(),
            DialogItem::Group(group) => group.name.as_str(),
        }
    }

    /// Whether the key of the item is `key`.
    pub fn has_name(&self, key: &String) -> (out: bool)
        ensures
            out == (self@.name() == key@),
    {
        match self {
            DialogItem::Task(task) => task.name == *key,
            DialogItem::Group(group) => group.name == *key,
        }
    }

    /// The label of the item.
    pub fn description(&self) -> (out: &str)
        ensures
            out@ == self@.description(),
    {
        match self {
            DialogItem::Task(task) => task.description.as_str(),
            DialogItem::Group(group) => group.description.as_str(),
        }
    }
}

impl TaskGroup {
    /// The menu that the group opens: its prompt and its tasks.
    pub fn dialog(&self) -> (out: Dialog)
        ensures
            out@ == self@.dialog(),
    {
        let mut items: Vec<DialogItem> = Vec::new();
        let mut i: usize = 0;
        while i < self.tasks.len()
            invariant
                i <= self.tasks.len(),
                items.len() == i,
                forall|j: int| 0 <= j < i ==> items@[j]@ == ItemView::Task(self.tasks@[j]@),
            decreases self.tasks.len() - i,
        {
            items.push(DialogItem::Task(self.tasks[i].clone()));
            i += 1;
        }
        proof {
            assert(items.deep_view() =~= self@.dialog().items);
        }
        Dialog { prompt: self.prompt.clone(), items }
    }
}

impl Dialog {
    /// The labels of the items, in order: what a selector shows.
    pub fn labels(&self) -> (out: Vec<String>)
        ensures
            out.deep_view() == self@.labels(),
    {
        let mut out: Vec<String> = Vec::new();
        let mut i: usize = 0;
        while i < self.items.len()
            invariant
                i <= self.items.len(),
                out.len() == i,
                forall|j: int| 0 <= j < i ==> out@[j]@ == self.items@[j]@.description(),
            decreases self.items.len() - i,
        {
            out.push(String::from_str(self.items[i].description()));
            i += 1;
        }
        proof {
            assert(out.deep_view() =~= self@.labels());
        }
        out
    }
}

/// The tasks that stand below the groups among `items`, group by group.
pub open spec fn nested_items(items: Seq<ItemView>) -> Seq<ItemView>
    decreases items.len(),
{
    if items.len() == 0 {
        Seq::empty()
    } else {
        nested_items(items.drop_last()) + items.last().children()
    }
}

/// Everything that can be invoked by its key: the items of the menu, then
/// the tasks of its groups.
pub open spec fn flattened(dialog: DialogView) -> Seq<ItemView> {
    dialog.items + nested_items(dialog.items)
}

/// The last of `items` whose key is `key`: among items that share a key the
/// later one shadows the earlier.
pub open spec fn last_named(items: Seq<ItemView>, key: Seq<char>) -> Option<ItemView>
    decreases items.len(),
{
    if items.len() == 0 {
        None
    } else if items.last().name() == key {
        Some(items.last())
    } else {
        last_named(items.drop_last(), key)
    }
}

/// Whether no two of `items` share a key.
pub open spec fn unique_names(items: Seq<ItemView>) -> bool {
    forall|i: int, j: int|
        0 <= i < j < items.len() ==> (#[trigger] items[i]).name() != (#[trigger] items[j]).name()
}

/// Lists everything that can be invoked by its key: the items of the menu,
/// then the tasks of its groups.
pub fn flatten(dialog: &Dialog) -> (out: Vec<DialogItem>)
    ensures
        out.deep_view() == flattened(dialog@),
{
    let mut out: Vec<DialogItem> = Vec::new();
    let mut i: usize = 0;
    while i < dialog.items.len()
        invariant
            i <= dialog.items.len(),
            out.deep_view() == dialog@.items.take(i as int),
        decreases dialog.items.len() - i,
    {
        let ghost before = out.deep_view();
        out.push(dialog.items[i].clone());
        proof {
            assert(out.deep_view() =~= before.push(dialog.items@[i as int]@));
            assert(dialog@.items.take(i + 1) =~= dialog@.items.take(i as int).push(
                dialog.items@[i as int]@,
            ));
        }
        i += 1;
    }
    proof {
        assert(dialog@.items.take(i as int) =~= dialog@.items);
        assert(dialog@.items.take(0) =~= Seq::<ItemView>::empty());
        assert(out.deep_view() + Seq::<ItemView>::empty() =~= out.deep_view());
    }
    let mut k: usize = 0;
    while k < dialog.items.len()
        invariant
            k <= dialog.items.len(),
            out.deep_view() == dialog@.items + nested_items(dialog@.items.take(k as int)),
        decreases dialog.items.len() - k,
    {
        let ghost seen = dialog@.items.take(k as int);
        let ghost next = dialog@.items.take(k + 1);
        proof {
            assert(next.drop_last() =~= seen);
            assert(next.last() == dialog.items@[k as int]@);
        }
        match &dialog.items[k] {
            DialogItem::Task(_) => {
                proof {
                    assert(nested_items(seen) + Seq::<ItemView>::empty() =~= nested_items(seen));
                }
            },
            DialogItem::Group(group) => {
                let ghost children = next.last().children();
                let mut t: usize = 0;
                while t < group.tasks.len()
                    invariant
                        t <= group.tasks.len(),
                        children == group@.tasks.map_values(|task: TaskView| ItemView::Task(task)),
                        out.deep_view() == dialog@.items + nested_items(seen) + children.take(
                            t as int,
                        ),
                    decreases group.tasks.len() - t,
                {
                    let ghost before = out.deep_view();
                    out.push(DialogItem::Task(group.tasks[t].clone()));
                    proof {
                        assert(out.deep_view() =~= before.push(children[t as int]));
                        assert(children.take(t + 1) =~= children.take(t as int).push(
                            children[t as int],
                        ));
                    }
                    t += 1;
                }
                proof {
                    assert(children.take(t as int) =~= children);
                    assert(dialog@.items + nested_items(seen) + children =~= dialog@.items + (
                    nested_items(seen) + children));
                }
            },
        }
        k += 1;
    }
    proof {
        assert(dialog@.items.take(k as int) =~= dialog@.items);
    }
    out
}

/// Finds the item that `key` invokes: the last of `items` with that key.
pub fn lookup<'a>(items: &'a Vec<DialogItem>, key: &str) -> (out: Option<&'a DialogItem>)
    ensures
        match out {
            Some(item) => last_named(items.deep_view(), key@) == Some(item@),
            None => last_named(items.deep_view(), key@) is None,
        },
{
    let wanted = String::from_str(key);
    let mut i: usize = items.len();
    proof {
        assert(items.deep_view().take(i as int) =~= items.deep_view());
    }
    while i > 0
        invariant
            i <= items.len(),
            wanted@ == key@,
            last_named(items.deep_view(), key@) == last_named(
                items.deep_view().take(i as int),
                key@,
            ),
        decreases i,
    {
        let ghost seen = items.deep_view().take(i as int);
        proof {
            assert(seen.last() == items@[i - 1]@);
            assert(seen.drop_last() =~= items.deep_view().take(i - 1));
        }
        i -= 1;
        if items[i].has_name(&wanted) {
            return Some(&items[i]);
        }
    }
    None
}

} // verus!

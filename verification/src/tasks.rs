//! The tasks of the tool: the menu that it is started with.

use vstd::prelude::*;
use vstd::string::StringExecFns;
use crate::registry::{
    flattened, nested_items, unique_names, Dialog, DialogItem, DialogView, GroupView, ItemView,
    Task, TaskGroup, TaskView,
};
use crate::version::{
    get_release_versions, release_versions, ReleaseVersions, ReleaseVersionsView, VersionError,
};

verus! {

/// The versions to show in the menu: those computed, or three empty texts
/// where none could be computed.
pub open spec fn versions_or_blank(
    outcome: Result<ReleaseVersionsView, VersionError>,
) -> ReleaseVersionsView {
    match outcome {
        Ok(versions) => versions,
        Err(_) => ReleaseVersionsView {
            major: Seq::empty(),
            minor: Seq::empty(),
            patch: Seq::empty(),
        },
    }
}

/// A menu item that runs `command`.
pub open spec fn task_item(
    name: Seq<char>,
    description: Seq<char>,
    command: Seq<char>,
) -> ItemView {
    ItemView::Task(TaskView { name, description, command })
}

/// The release tasks, each labelled with the version it would prepare.
pub open spec fn release_group(versions: ReleaseVersionsView) -> GroupView {
    GroupView {
        name: "release"@,
        description: "Prepare a release"@,
        prompt: "What type of release would like to prepare?"@,
        tasks: seq![
            TaskView {
                name: "release-major"@,
                description: "Prepare a major release "@ + versions.major,
                command: "python3 ./automation/prepare-release.py major"@,
            },
            TaskView {
                name: "release-minor"@,
                description: "Prepare a minor release "@ + versions.minor,
                command: "python3 ./automation/prepare-release.py minor"@,
            },
            TaskView {
                name: "release-patch"@,
                description: "Prepare a patch release "@ + versions.patch,
                command: "python3 ./automation/prepare-release.py patch"@,
            },
        ],
    }
}

/// The menu of the tool, with the release tasks labelled by `versions`.
pub open spec fn default_dialog(versions: ReleaseVersionsView) -> DialogView {
    DialogView {
        prompt: "What would you like to do today?"@,
        items: seq![
            task_item("build"@, "Build Application Services"@, "cargo build"@),
            task_item(
                "test"@,
                "Run all tests for a pull request"@,
                "sh ./automation/all_tests.sh"@,
            ),
            task_item("test_rust"@, "Run all Rust tests"@, "sh ./automation/all_rust_tests.sh"@),
            task_item(
                "verify_env"@,
                "Verify your development environment"@,
                "sh ./libs/verify-desktop-environment.sh ;\n        sh ./libs/verify-android-environment.sh ;\n        sh ./libs/verify-ios-environment.sh"@,
            ),
            ItemView::Group(release_group(versions)),
            task_item(
                "regen-dependencies"@,
                "Regenerate dependency summaries"@,
                "sh ./tools/regenerate_dependency_summaries.sh"@,
            ),
            task_item(
                "lint_bash"@,
                "Lint bash script changes"@,
                "sh ./automation/lint_bash_scripts.sh"@,
            ),
            task_item(
                "cargo_update"@,
                "Create a 'cargo update' PR"@,
                "python3 ./automation/cargo-update-pr.py"@,
            ),
            task_item(
                "regen-protobufs"@,
                "Regenerate protobuf files"@,
                "cargo run --bin protobuf-gen tools/protobuf_files.toml"@,
            ),
            task_item("help"@, "See all CLI options"@, "cargo asdev -h"@),
        ],
    }
}

/// Makes a task from its three texts.
fn task(name: &str, description: String, command: &str) -> (out: Task)
    ensures
        out@ == (TaskView { name: name@, description: description@, command: command@ }),
{
    Task { name: String::from_str(name), description, command: String::from_str(command) }
}

/// Makes a menu item that runs `command`.
fn leaf(name: &str, description: &str, command: &str) -> (out: DialogItem)
    ensures
        out@ == task_item(name@, description@, command@),
{
    DialogItem::Task(task(name, String::from_str(description), command))
}

/// Builds the release tasks, labelled with the versions they would prepare.
fn release_tasks(versions: &ReleaseVersions) -> (out: TaskGroup)
    ensures
        out@ == release_group(versions@),
{
    let mut tasks: Vec<Task> = Vec::new();
    tasks.push(
        task(
            "release-major",
            String::from_str("Prepare a major release ").concat(versions.major.as_str()),
            "python3 ./automation/prepare-release.py major",
        ),
    );
    tasks.push(
        task(
            "release-minor",
            String::from_str("Prepare a minor release ").concat(versions.minor.as_str()),
            "python3 ./automation/prepare-release.py minor",
        ),
    );
    tasks.push(
        task(
            "release-patch",
            String::from_str("Prepare a patch release ").concat(versions.patch.as_str()),
            "python3 ./automation/prepare-release.py patch",
        ),
    );
    proof {
        assert(tasks.deep_view() =~= release_group(versions@).tasks);
    }
    TaskGroup {
        name: String::from_str("release"),
        description: String::from_str("Prepare a release"),
        prompt: String::from_str("What type of release would like to prepare?"),
        tasks,
    }
}

/// Builds the menu of the tool, with the release tasks labelled by
/// `versions`.
pub fn dialog_for(versions: &ReleaseVersions) -> (out: Dialog)
    ensures
        out@ == default_dialog(versions@),
{
    let mut items: Vec<DialogItem> = Vec::new();
    items.push(leaf("build", "Build Application Services", "cargo build"));
    items.push(leaf("test", "Run all tests for a pull request", "sh ./automation/all_tests.sh"));
    items.push(leaf("test_rust", "Run all Rust tests", "sh ./automation/all_rust_tests.sh"));
    items.push(
        leaf(
            "verify_env",
            "Verify your development environment",
            "sh ./libs/verify-desktop-environment.sh ;\n        sh ./libs/verify-android-environment.sh ;\n        sh ./libs/verify-ios-environment.sh",
        ),
    );
    items.push(DialogItem::Group(release_tasks(versions)));
    items.push(
        leaf(
            "regen-dependencies",
            "Regenerate dependency summaries",
            "sh ./tools/regenerate_dependency_summaries.sh",
        ),
    );
    items.push(leaf("lint_bash", "Lint bash script changes", "sh ./automation/lint_bash_scripts.sh"));
    items.push(
        leaf(
            "cargo_update",
            "Create a 'cargo update' PR",
            "python3 ./automation/cargo-update-pr.py",
        ),
    );
    items.push(
        leaf(
            "regen-protobufs",
            "Regenerate protobuf files",
            "cargo run --bin protobuf-gen tools/protobuf_files.toml",
        ),
    );
    items.push(leaf("help", "See all CLI options", "cargo asdev -h"));
    proof {
        assert(items.deep_view() =~= default_dialog(versions@).items);
    }
    Dialog { prompt: String::from_str("What would you like to do today?"), items }
}

/// Builds the menu of the tool from the first line of the configuration;
/// `None` stands for a configuration that could not be read. Where no
/// release versions can be computed the release tasks are labelled without
/// one.
pub fn setup_default_dialog(first_line: Option<&str>) -> (out: Dialog)
    ensures
        out@ == default_dialog(
            versions_or_blank(
                release_versions(
                    match first_line {
                        Some(line) => Some(line@),
                        None => None,
                    },
                ),
            ),
        ),
        unique_names(flattened(out@)),
{
    let versions = match get_release_versions(first_line) {
        Ok(versions) => versions,
        Err(_) => ReleaseVersions {
            major: String::new(),
            minor: String::new(),
            patch: String::new(),
        },
    };
    proof {
        lemma_default_dialog_unique_names(versions@);
    }
    dialog_for(&versions)
}

/// The keys of everything that the menu of the tool can invoke, in the
/// order of `flattened`.
pub open spec fn default_names() -> Seq<Seq<char>> {
    seq![
        "build"@,
        "test"@,
        "test_rust"@,
        "verify_env"@,
        "release"@,
        "regen-dependencies"@,
        "lint_bash"@,
        "cargo_update"@,
        "regen-protobufs"@,
        "help"@,
        "release-major"@,
        "release-minor"@,
        "release-patch"@,
    ]
}

/// The menu of the tool can invoke thirteen items, and no two of them share
/// a key, whatever the versions that label the release tasks.
pub proof fn lemma_default_dialog_unique_names(versions: ReleaseVersionsView)
    ensures
        flattened(default_dialog(versions)).len() == 13,
        forall|i: int|
            0 <= i < 13 ==> (#[trigger] flattened(default_dialog(versions))[i]).name()
                == default_names()[i],
        unique_names(flattened(default_dialog(versions))),
{
    let dialog = default_dialog(versions);
    let items = dialog.items;
    let group = release_group(versions);
    let all = flattened(dialog);
    assert(nested_items(items) =~= group.tasks.map_values(|task: TaskView| ItemView::Task(task)))
        by {
        let children = group.tasks.map_values(|task: TaskView| ItemView::Task(task));
        assert(nested_items(items.take(0)) =~= Seq::<ItemView>::empty());
        assert(items.take(1).drop_last() =~= items.take(0));
        assert(items.take(2).drop_last() =~= items.take(1));
        assert(items.take(3).drop_last() =~= items.take(2));
        assert(items.take(4).drop_last() =~= items.take(3));
        assert(items.take(5).drop_last() =~= items.take(4));
        assert(items.take(6).drop_last() =~= items.take(5));
        assert(items.take(7).drop_last() =~= items.take(6));
        assert(items.take(8).drop_last() =~= items.take(7));
        assert(items.take(9).drop_last() =~= items.take(8));
        assert(items.take(10).drop_last() =~= items.take(9));
        assert(items.take(10) =~= items);
        assert(nested_items(items.take(1)) =~= Seq::<ItemView>::empty());
        assert(nested_items(items.take(2)) =~= Seq::<ItemView>::empty());
        assert(nested_items(items.take(3)) =~= Seq::<ItemView>::empty());
        assert(nested_items(items.take(4)) =~= Seq::<ItemView>::empty());
        assert(items.take(5).last().children() == children);
        assert(nested_items(items.take(5)) =~= children);
        assert(nested_items(items.take(6)) =~= children);
        assert(nested_items(items.take(7)) =~= children);
        assert(nested_items(items.take(8)) =~= children);
        assert(nested_items(items.take(9)) =~= children);
        assert(nested_items(items.take(10)) =~= children);
    }
    assert(all.len() == 13);
    let names = default_names();
    assert forall|i: int| 0 <= i < 13 implies (#[trigger] all[i]).name() == names[i] by {
        if i >= 10 {
            assert(all[i] == ItemView::Task(group.tasks[i - 10]));
        } else {
            assert(all[i] == items[i]);
        }
    }
    reveal_strlit("build");
    reveal_strlit("test");
    reveal_strlit("test_rust");
    reveal_strlit("verify_env");
    reveal_strlit("release");
    reveal_strlit("regen-dependencies");
    reveal_strlit("lint_bash");
    reveal_strlit("cargo_update");
    reveal_strlit("regen-protobufs");
    reveal_strlit("help");
    reveal_strlit("release-major");
    reveal_strlit("release-minor");
    reveal_strlit("release-patch");
    assert(names[0].len() == 5 && names[0][0] == 'b');
    assert(names[1].len() == 4 && names[1][0] == 't');
    assert(names[2].len() == 9 && names[2][0] == 't');
    assert(names[3].len() == 10 && names[3][0] == 'v');
    assert(names[4].len() == 7 && names[4][0] == 'r');
    assert(names[5].len() == 18 && names[5][0] == 'r');
    assert(names[6].len() == 9 && names[6][0] == 'l');
    assert(names[7].len() == 12 && names[7][0] == 'c');
    assert(names[8].len() == 15 && names[8][0] == 'r');
    assert(names[9].len() == 4 && names[9][0] == 'h');
    assert(names[10].len() == 13 && names[10][0] == 'r');
    assert(names[11].len() == 13 && names[11][0] == 'r');
    assert(names[12].len() == 13 && names[12][0] == 'r');
    assert(names[10][8] == 'm' && names[10][9] == 'a');
    assert(names[11][8] == 'm' && names[11][9] == 'i');
    assert(names[12][8] == 'p' && names[12][9] == 'a');
    assert forall|i: int, j: int| 0 <= i < j < 13 implies names[i] != names[j] by {
        assert(names[i].len() != names[j].len() || names[i][0] != names[j][0] || names[i][8]
            != names[j][8] || names[i][9] != names[j][9]);
    }
    assert forall|i: int, j: int| 0 <= i < j < all.len() implies (#[trigger] all[i]).name() != (
    #[trigger] all[j]).name() by {
        assert(all[i].name() == names[i]);
        assert(all[j].name() == names[j]);
    }
}

} // verus!

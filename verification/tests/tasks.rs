use asdev::executor::plan;
use asdev::registry::{flatten, DialogItem, Task, TaskGroup};
use asdev::tasks::{dialog_for, setup_default_dialog};
use asdev::version::ReleaseVersions;

fn task(name: &str, description: &str, command: &str) -> Task {
    Task {
        name: name.to_string(),
        description: description.to_string(),
        command: command.to_string(),
    }
}

fn names(items: &[DialogItem]) -> Vec<String> {
    items.iter().map(|item| item.name().to_string()).collect()
}

#[test]
fn default_dialog_lists_the_tasks_in_order() {
    let dialog = setup_default_dialog(None);
    assert_eq!(dialog.prompt, "What would you like to do today?");
    assert_eq!(
        names(&dialog.items),
        vec![
            "build",
            "test",
            "test_rust",
            "verify_env",
            "release",
            "regen-dependencies",
            "lint_bash",
            "cargo_update",
            "regen-protobufs",
            "help",
        ]
    );
    assert_eq!(
        dialog.items[0],
        DialogItem::Task(task("build", "Build Application Services", "cargo build"))
    );
    assert_eq!(
        dialog.items[9],
        DialogItem::Task(task("help", "See all CLI options", "cargo asdev -h"))
    );
}

#[test]
fn default_dialog_labels_are_the_descriptions() {
    let dialog = setup_default_dialog(None);
    assert_eq!(
        dialog.labels(),
        vec![
            "Build Application Services",
            "Run all tests for a pull request",
            "Run all Rust tests",
            "Verify your development environment",
            "Prepare a release",
            "Regenerate dependency summaries",
            "Lint bash script changes",
            "Create a 'cargo update' PR",
            "Regenerate protobuf files",
            "See all CLI options",
        ]
    );
}

#[test]
fn environment_check_is_three_sub_commands_over_three_lines() {
    let dialog = setup_default_dialog(None);
    assert_eq!(
        dialog.items[3],
        DialogItem::Task(task(
            "verify_env",
            "Verify your development environment",
            "sh ./libs/verify-desktop-environment.sh ;
        sh ./libs/verify-android-environment.sh ;
        sh ./libs/verify-ios-environment.sh",
        ))
    );
}

#[test]
fn release_tasks_show_the_computed_versions() {
    let dialog = setup_default_dialog(Some("libraryVersion: \"1.2.3\"\n"));
    let expected = TaskGroup {
        name: "release".to_string(),
        description: "Prepare a release".to_string(),
        prompt: "What type of release would like to prepare?".to_string(),
        tasks: vec![
            task(
                "release-major",
                "Prepare a major release 2.0.0",
                "python3 ./automation/prepare-release.py major",
            ),
            task(
                "release-minor",
                "Prepare a minor release 1.3.0",
                "python3 ./automation/prepare-release.py minor",
            ),
            task(
                "release-patch",
                "Prepare a patch release 1.2.4",
                "python3 ./automation/prepare-release.py patch",
            ),
        ],
    };
    assert_eq!(dialog.items[4], DialogItem::Group(expected));
}

#[test]
fn missing_version_file_leaves_the_version_text_empty() {
    let dialog = setup_default_dialog(None);
    assert_eq!(dialog.items.len(), 10);
    match &dialog.items[4] {
        DialogItem::Group(group) => {
            assert_eq!(group.tasks.len(), 3);
            assert_eq!(group.tasks[0].description, "Prepare a major release ");
            assert_eq!(group.tasks[1].description, "Prepare a minor release ");
            assert_eq!(group.tasks[2].description, "Prepare a patch release ");
            assert_eq!(group.tasks[0].command, "python3 ./automation/prepare-release.py major");
            assert_eq!(group.tasks[1].command, "python3 ./automation/prepare-release.py minor");
            assert_eq!(group.tasks[2].command, "python3 ./automation/prepare-release.py patch");
        }
        DialogItem::Task(_) => panic!("the release item is a group"),
    }
}

#[test]
fn malformed_version_leaves_the_version_text_empty() {
    assert_eq!(setup_default_dialog(Some("libraryVersion: \"1.2\"\n")), setup_default_dialog(None));
    assert_eq!(setup_default_dialog(Some("version: \"1.2.3\"\n")), setup_default_dialog(None));
    assert_eq!(setup_default_dialog(Some(": : :")), setup_default_dialog(None));
}

#[test]
fn an_overlong_first_line_leaves_the_version_text_empty() {
    let line = "- ".repeat(50_000);
    assert_eq!(setup_default_dialog(Some(&line)), setup_default_dialog(None));
}

#[test]
fn dialog_for_labels_each_release_task_with_its_version() {
    let versions = ReleaseVersions {
        major: "A".to_string(),
        minor: "B".to_string(),
        patch: "C".to_string(),
    };
    let dialog = dialog_for(&versions);
    let group = match &dialog.items[4] {
        DialogItem::Group(group) => group,
        DialogItem::Task(_) => panic!("the release item is a group"),
    };
    assert_eq!(group.tasks[0].description, "Prepare a major release A");
    assert_eq!(group.tasks[1].description, "Prepare a minor release B");
    assert_eq!(group.tasks[2].description, "Prepare a patch release C");
}

#[test]
fn default_keys_are_unique() {
    let all = flatten(&setup_default_dialog(Some("libraryVersion: \"1.2.3\"\n")));
    for i in 0..all.len() {
        for j in 0..all.len() {
            if i != j {
                assert_ne!(all[i].name(), all[j].name());
            }
        }
    }
}

#[test]
fn every_default_command_line_can_be_planned() {
    let mut launches = Vec::new();
    for item in flatten(&setup_default_dialog(None)) {
        if let DialogItem::Task(task) = item {
            let commands = plan(&task.command).unwrap();
            assert!(!commands.is_empty(), "{} launches nothing", task.name);
            launches.push((task.name.clone(), commands.len()));
        }
    }
    assert_eq!(launches.len(), 12);
    for (name, count) in launches {
        assert_eq!(count, if name == "verify_env" { 3 } else { 1 }, "for {}", name);
    }
}

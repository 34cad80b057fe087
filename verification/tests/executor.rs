use asdev::executor::{
    exit_code, plan, report, report_header, Batch, ExitStatus, PlanError, SubCommand,
    SubCommandResult, NO_EXIT_CODE,
};

fn command(text: &str, program: &str, arguments: &[&str]) -> SubCommand {
    SubCommand {
        text: text.to_string(),
        program: program.to_string(),
        arguments: arguments.iter().map(|a| a.to_string()).collect(),
    }
}

fn passed() -> ExitStatus {
    ExitStatus { success: true, code: Some(0) }
}

fn failed(code: i32) -> ExitStatus {
    ExitStatus { success: false, code: Some(code) }
}

fn killed() -> ExitStatus {
    ExitStatus { success: false, code: None }
}

fn run(command_line: &str, statuses: &[ExitStatus], order: &[usize]) -> (Vec<String>, i32) {
    let mut batch = Batch::new(plan(command_line).unwrap());
    assert_eq!(batch.len(), statuses.len());
    for &position in order {
        assert!(!batch.is_complete());
        assert_eq!(batch.results(), None);
        assert!(batch.record(position, statuses[position]));
    }
    assert!(batch.is_complete());
    let results = batch.results().unwrap();
    (report(&results), exit_code(&results))
}

#[test]
fn plan_splits_at_semicolons_and_whitespace() {
    assert_eq!(
        plan("true ; false ; true"),
        Ok(vec![
            command("true ", "true", &[]),
            command(" false ", "false", &[]),
            command(" true", "true", &[]),
        ])
    );
    assert_eq!(plan("echo hi"), Ok(vec![command("echo hi", "echo", &["hi"])]));
    assert_eq!(
        plan("cargo run --bin protobuf-gen tools/protobuf_files.toml"),
        Ok(vec![command(
            "cargo run --bin protobuf-gen tools/protobuf_files.toml",
            "cargo",
            &["run", "--bin", "protobuf-gen", "tools/protobuf_files.toml"],
        )])
    );
}

#[test]
fn plan_ignores_a_semicolon_at_the_end() {
    assert_eq!(
        plan("a 1;b 2;"),
        Ok(vec![command("a 1", "a", &["1"]), command("b 2", "b", &["2"])])
    );
}

#[test]
fn plan_knows_no_quoting() {
    assert_eq!(
        plan("sh -c 'a b'"),
        Ok(vec![command("sh -c 'a b'", "sh", &["-c", "'a", "b'"])])
    );
}

#[test]
fn plan_of_an_empty_command_line_launches_nothing() {
    assert_eq!(plan(""), Ok(vec![]));
}

#[test]
fn plan_rejects_a_sub_command_without_a_program() {
    assert_eq!(plan(";"), Err(PlanError::NoProgram { position: 0 }));
    assert_eq!(plan("   "), Err(PlanError::NoProgram { position: 0 }));
    assert_eq!(plan("a;;b"), Err(PlanError::NoProgram { position: 1 }));
    assert_eq!(plan("a; b; \t ;;"), Err(PlanError::NoProgram { position: 2 }));
    assert_eq!(plan("a ; b ; "), Err(PlanError::NoProgram { position: 2 }));
}

#[test]
fn plan_of_the_environment_check_has_three_sub_commands() {
    let commands = plan(
        "sh ./libs/verify-desktop-environment.sh ;
        sh ./libs/verify-android-environment.sh ;
        sh ./libs/verify-ios-environment.sh",
    )
    .unwrap();
    assert_eq!(commands.len(), 3);
    assert_eq!(commands[0].program, "sh");
    assert_eq!(commands[0].arguments, vec!["./libs/verify-desktop-environment.sh"]);
    assert_eq!(commands[1].program, "sh");
    assert_eq!(commands[1].arguments, vec!["./libs/verify-android-environment.sh"]);
    assert_eq!(commands[2].program, "sh");
    assert_eq!(commands[2].arguments, vec!["./libs/verify-ios-environment.sh"]);
    assert_eq!(commands[1].text, "\n        sh ./libs/verify-android-environment.sh ");
}

#[test]
fn true_false_true_reports_pass_fail_pass_and_exits_with_the_failure() {
    let (lines, code) = run("true ; false ; true", &[passed(), failed(1), passed()], &[0, 1, 2]);
    assert_eq!(lines, vec!["true \u{2705}", "false \u{274c}", "true \u{2705}"]);
    assert_eq!(code, 1);
}

#[test]
fn echo_hi_reports_one_pass_line_and_exits_with_zero() {
    let (lines, code) = run("echo hi", &[passed()], &[0]);
    assert_eq!(lines, vec!["echo hi \u{2705}"]);
    assert_eq!(code, 0);
}

#[test]
fn one_launch_and_one_line_for_each_sub_command() {
    for k in 1..6usize {
        let parts: Vec<String> = (0..k).map(|i| format!("cmd{} arg", i)).collect();
        let command_line = parts.join(";");
        let commands = plan(&command_line).unwrap();
        assert_eq!(commands.len(), k);
        let mut batch = Batch::new(commands);
        assert_eq!(batch.sub_commands().len(), k);
        for i in 0..k {
            assert_eq!(batch.sub_commands()[i].text, parts[i]);
            assert!(batch.record(i, passed()));
        }
        let lines = report(&batch.results().unwrap());
        assert_eq!(lines.len(), k);
        for i in 0..k {
            assert_eq!(lines[i], format!("cmd{} arg \u{2705}", i));
        }
    }
}

#[test]
fn all_succeeding_exits_with_zero() {
    let (_, code) = run("a;b;c", &[passed(), passed(), passed()], &[2, 0, 1]);
    assert_eq!(code, 0);
    assert_eq!(exit_code(&vec![]), 0);
}

#[test]
fn the_earliest_failure_decides_the_exit_code() {
    let statuses = [passed(), failed(3), passed(), failed(7)];
    let (_, code) = run("a;b;c;d", &statuses, &[0, 1, 2, 3]);
    assert_eq!(code, 3);
}

#[test]
fn the_order_of_completion_does_not_matter() {
    let statuses = [passed(), failed(3), passed(), failed(7)];
    let in_order = run("a;b;c;d", &statuses, &[0, 1, 2, 3]);
    let reversed = run("a;b;c;d", &statuses, &[3, 2, 1, 0]);
    let mixed = run("a;b;c;d", &statuses, &[3, 0, 2, 1]);
    assert_eq!(in_order, reversed);
    assert_eq!(in_order, mixed);
    assert_eq!(in_order.0, vec!["a \u{2705}", "b \u{274c}", "c \u{2705}", "d \u{274c}"]);
    assert_eq!(in_order.1, 3);
}

#[test]
fn running_a_successful_command_line_twice_gives_the_same() {
    let statuses = [passed(), passed()];
    let once = run("echo a ; echo b", &statuses, &[0, 1]);
    let again = run("echo a ; echo b", &statuses, &[1, 0]);
    assert_eq!(once.1, 0);
    assert_eq!(again.1, 0);
    assert_eq!(once.0, again.0);
    assert_eq!(once.0, vec!["echo a \u{2705}", "echo b \u{2705}"]);
}

#[test]
fn a_failure_without_an_exit_code_exits_with_the_sentinel() {
    let (lines, code) = run("a;b", &[killed(), failed(5)], &[1, 0]);
    assert_eq!(lines, vec!["a \u{274c}", "b \u{274c}"]);
    assert_eq!(code, NO_EXIT_CODE);
    assert_ne!(NO_EXIT_CODE, 0);
}

#[test]
fn the_exit_code_of_the_sub_command_is_passed_on() {
    for code in [1, 2, 127, 255, -1, i32::MAX, i32::MIN] {
        let results = vec![
            SubCommandResult { command_text: "ok".to_string(), status: passed() },
            SubCommandResult { command_text: "bad".to_string(), status: failed(code) },
        ];
        assert_eq!(exit_code(&results), code);
    }
}

#[test]
fn report_trims_the_text_of_each_sub_command() {
    let results = vec![
        SubCommandResult { command_text: "  sh a.sh \n".to_string(), status: passed() },
        SubCommandResult { command_text: "\n\tsh   b.sh".to_string(), status: failed(2) },
    ];
    assert_eq!(report(&results), vec!["sh a.sh \u{2705}", "sh   b.sh \u{274c}"]);
    assert_eq!(report(&vec![]), Vec::<String>::new());
}

#[test]
fn report_header_names_the_report() {
    assert_eq!(report_header(), "==========  Report  ==========");
}

#[test]
fn batch_waits_for_every_sub_command() {
    let mut batch = Batch::new(plan("a;b;c").unwrap());
    assert_eq!(batch.len(), 3);
    assert!(!batch.is_complete());
    assert!(batch.record(1, failed(9)));
    assert!(batch.record(0, passed()));
    assert!(!batch.is_complete());
    assert_eq!(batch.results(), None);
    assert!(batch.record(2, passed()));
    assert!(batch.is_complete());
    assert_eq!(
        batch.results(),
        Some(vec![
            SubCommandResult { command_text: "a".to_string(), status: passed() },
            SubCommandResult { command_text: "b".to_string(), status: failed(9) },
            SubCommandResult { command_text: "c".to_string(), status: passed() },
        ])
    );
}

#[test]
fn batch_does_not_record_a_position_that_it_does_not_have() {
    let mut batch = Batch::new(plan("a;b").unwrap());
    assert!(!batch.record(2, passed()));
    assert!(!batch.record(usize::MAX, passed()));
    assert!(!batch.is_complete());
    assert!(batch.record(0, passed()));
    assert!(batch.record(1, passed()));
    assert!(batch.is_complete());
}

#[test]
fn an_empty_batch_is_complete() {
    let batch = Batch::new(vec![]);
    assert_eq!(batch.len(), 0);
    assert!(batch.is_complete());
    assert_eq!(batch.results(), Some(vec![]));
}

#[test]
fn exit_status_from_code_succeeds_on_zero_only() {
    assert_eq!(ExitStatus::from_code(Some(0)), passed());
    assert_eq!(ExitStatus::from_code(Some(1)), failed(1));
    assert_eq!(ExitStatus::from_code(Some(-1)), failed(-1));
    assert_eq!(ExitStatus::from_code(None), killed());
}

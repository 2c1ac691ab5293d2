use find_stutter::args::{parse_count, ArgError};
use find_stutter::cli::{dispatch, parse_args, try_parse_args_from, Cli, Commands, DispatchOutcome};
use find_stutter::service_cli::{Cli as ServiceCli, Commands as ServiceCommands};
use find_stutter::upgrade::{after_step, find_workspace, first_line, plan_upgrade, StepResult, UpgradeAction, UpgradePlan, UpgradeStep};
use find_stutter::elevate::ElevateOutcome;

#[test]
fn parse_no_subcommand_is_gui() {
    let cli = Cli::try_parse_from(&["find-stutter"]).unwrap();
    assert!(cli.command.is_none());
}

#[test]
fn parse_run_is_gui() {
    let cli = Cli::try_parse_from(&["find-stutter", "run"]).unwrap();
    assert!(matches!(cli.command, Some(Commands::Run)));
}

#[test]
fn parse_events_defaults() {
    let cli = Cli::try_parse_from(&["find-stutter", "events"]).unwrap();
    match cli.command {
        Some(Commands::Events { from, to, limit }) => {
            assert!(from.is_none());
            assert!(to.is_none());
            assert_eq!(limit, 100);
        }
        other => panic!("{:?}", other),
    }
}

#[test]
fn parse_events_with_filters() {
    let cli = Cli::try_parse_from(&[
        "find-stutter", "events", "--from", "2026-08-16", "--to", "2026-08-16T23:59:59Z", "--limit", "5",
    ])
    .unwrap();
    match cli.command {
        Some(Commands::Events { from, to, limit }) => {
            assert_eq!(from.as_deref(), Some("2026-08-16"));
            assert_eq!(to.as_deref(), Some("2026-08-16T23:59:59Z"));
            assert_eq!(limit, 5);
        }
        other => panic!("{:?}", other),
    }
}

#[test]
fn parse_samples_default_limit_is_1000() {
    let cli = Cli::try_parse_from(&["find-stutter", "samples"]).unwrap();
    match cli.command {
        Some(Commands::Samples { limit, .. }) => assert_eq!(limit, 1000),
        other => panic!("{:?}", other),
    }
}

#[test]
fn parse_analysis_range() {
    let cli =
        Cli::try_parse_from(&["find-stutter", "analysis", "--from", "2026-08-01", "--to", "2026-08-16"]).unwrap();
    match cli.command {
        Some(Commands::Analysis { from, to }) => {
            assert_eq!(from.as_deref(), Some("2026-08-01"));
            assert_eq!(to.as_deref(), Some("2026-08-16"));
        }
        other => panic!("{:?}", other),
    }
}

#[test]
fn parse_query_positional_sql_and_db_flag() {
    let cli =
        Cli::try_parse_from(&["find-stutter", "query", "SELECT COUNT(*) AS n FROM stutter_events"]).unwrap();
    match cli.command {
        Some(Commands::Query { sql, db }) => {
            assert_eq!(sql, "SELECT COUNT(*) AS n FROM stutter_events");
            assert!(db.is_none());
        }
        other => panic!("{:?}", other),
    }
    let cli = Cli::try_parse_from(&["find-stutter", "query", "--db", "verify.db", "SELECT 1"]).unwrap();
    match cli.command {
        Some(Commands::Query { sql, db }) => {
            assert_eq!(sql, "SELECT 1");
            assert_eq!(db.as_deref(), Some("verify.db"));
        }
        other => panic!("{:?}", other),
    }
}

#[test]
fn parse_config_status_process() {
    assert!(matches!(Cli::try_parse_from(&["find-stutter", "config"]).unwrap().command, Some(Commands::Config)));
    assert!(matches!(Cli::try_parse_from(&["find-stutter", "status"]).unwrap().command, Some(Commands::Status)));
    match Cli::try_parse_from(&["find-stutter", "process", "-l", "3"]).unwrap().command {
        Some(Commands::Process { limit }) => assert_eq!(limit, 3),
        other => panic!("{:?}", other),
    }
}

#[test]
fn parse_export() {
    let cli = Cli::try_parse_from(&[
        "find-stutter", "export", "--from", "2026-07-25", "--to", "2026-07-26", "-o", "report.csv",
    ])
    .unwrap();
    match cli.command {
        Some(Commands::Export { from, to, output }) => {
            assert_eq!(from, "2026-07-25");
            assert_eq!(to, "2026-07-26");
            assert_eq!(output, "report.csv");
        }
        other => panic!("{:?}", other),
    }
}

#[test]
fn parse_export_default_output() {
    let cli = Cli::try_parse_from(&["find-stutter", "export", "--from", "a", "--to", "b"]).unwrap();
    match cli.command {
        Some(Commands::Export { output, .. }) => assert_eq!(output, "export.csv"),
        other => panic!("{:?}", other),
    }
}

#[test]
fn parse_upgrade_flags() {
    assert!(matches!(
        Cli::try_parse_from(&["find-stutter", "upgrade"]).unwrap().command,
        Some(Commands::Upgrade { no_build: false })
    ));
    assert!(matches!(
        Cli::try_parse_from(&["find-stutter", "upgrade", "--no-build"]).unwrap().command,
        Some(Commands::Upgrade { no_build: true })
    ));
}

#[test]
fn stats_subcommand_is_removed() {
    assert!(Cli::try_parse_from(&["find-stutter", "stats"]).is_err());
}

#[test]
fn unknown_subcommand_fails() {
    assert!(Cli::try_parse_from(&["find-stutter", "explode"]).is_err());
}

#[test]
fn dispatch_none_and_run_return_launch_gui() {
    let cli = Cli::try_parse_from(&["find-stutter"]).unwrap();
    assert_eq!(dispatch(&cli), DispatchOutcome::LaunchGui);
    let cli = Cli::try_parse_from(&["find-stutter", "run"]).unwrap();
    assert_eq!(dispatch(&cli), DispatchOutcome::LaunchGui);
}

#[test]
fn dispatch_config_and_status_are_done() {
    let cli = Cli::try_parse_from(&["find-stutter", "config"]).unwrap();
    assert_eq!(dispatch(&cli), DispatchOutcome::Done);
}

#[test]
fn dispatch_events_missing_db_errors_cleanly() {
    let cli = Cli::try_parse_from(&["find-stutter", "events", "--limit", "1"]).unwrap();
    assert_eq!(dispatch(&cli), DispatchOutcome::Done);
}

fn parse_args_from(args: &[&str]) -> Cli {
    try_parse_args_from(args).unwrap()
}

#[test]
fn cli_default_no_args() {
    let cli = parse_args_from(&["find-stutter"]);
    assert!(cli.command.is_none());
}

#[test]
fn cli_run_subcommand() {
    let cli = parse_args_from(&["find-stutter", "run"]);
    assert!(matches!(cli.command, Some(Commands::Run)));
}

#[test]
fn cli_export_subcommand() {
    let cli = parse_args_from(&["find-stutter", "export", "--from", "2026-01-01", "--to", "2026-12-31"]);
    match cli.command {
        Some(Commands::Export { from, to, output }) => {
            assert_eq!(from, "2026-01-01");
            assert_eq!(to, "2026-12-31");
            assert_eq!(output, "export.csv");
        }
        other => panic!("{:?}", other),
    }
}

#[test]
fn cli_export_with_custom_output() {
    let cli = parse_args_from(&[
        "find-stutter", "export", "--from", "2026-01-01", "--to", "2026-12-31", "-o", "my_report.csv",
    ]);
    match cli.command {
        Some(Commands::Export { output, .. }) => assert_eq!(output, "my_report.csv"),
        other => panic!("{:?}", other),
    }
}

#[test]
fn cli_stats_subcommand_is_removed() {
    assert!(try_parse_args_from(&["find-stutter", "stats"]).is_err());
}

#[test]
fn dispatch_gui_intent() {
    assert_eq!(dispatch(&parse_args_from(&["find-stutter"])), DispatchOutcome::LaunchGui);
    assert_eq!(dispatch(&parse_args_from(&["find-stutter", "run"])), DispatchOutcome::LaunchGui);
}

#[test]
fn nothing_behind_the_end_of_options_opens_the_window() {
    let cli = Cli::try_parse_from(&["find-stutter", "--"]).unwrap();
    assert!(cli.command.is_none());
    assert_eq!(dispatch(&cli), DispatchOutcome::LaunchGui);
    assert!(Cli::try_parse_from(&["find-stutter", "--", "run"]).is_err());
    assert!(Cli::try_parse_from(&["find-stutter", "--", "--"]).is_err());
}

#[test]
fn maintenance_may_skip_the_vacuum() {
    assert!(matches!(
        Cli::try_parse_from(&["find-stutter", "maintenance"]).unwrap().command,
        Some(Commands::Maintenance { skip_vacuum: false })
    ));
    assert!(matches!(
        Cli::try_parse_from(&["find-stutter", "maintenance", "--skip-vacuum"]).unwrap().command,
        Some(Commands::Maintenance { skip_vacuum: true })
    ));
    assert!(Cli::try_parse_from(&["find-stutter", "maintenance", "--no-build"]).is_err());
}

#[test]
fn cli_upgrade_subcommand_flags() {
    assert!(matches!(
        try_parse_args_from(&["find-stutter", "upgrade"]).unwrap().command,
        Some(Commands::Upgrade { no_build: false })
    ));
    assert!(matches!(
        try_parse_args_from(&["find-stutter", "upgrade", "--no-build"]).unwrap().command,
        Some(Commands::Upgrade { no_build: true })
    ));
}

#[test]
fn dispatch_query_subcommands_parse() {
    for args in [
        vec!["find-stutter", "events"],
        vec!["find-stutter", "samples", "--limit", "10"],
        vec!["find-stutter", "analysis"],
        vec!["find-stutter", "config"],
        vec!["find-stutter", "status"],
        vec!["find-stutter", "process"],
    ] {
        let cli = parse_args_from(&args);
        assert_eq!(dispatch(&cli), DispatchOutcome::Done, "{:?}", args);
    }
}

#[test]
fn options_may_be_written_in_every_form() {
    for args in [
        ["find-stutter", "process", "--limit=3"],
        ["find-stutter", "process", "-l3"],
        ["find-stutter", "process", "-l=3"],
    ] {
        match parse_args(&args).unwrap().command {
            Some(Commands::Process { limit }) => assert_eq!(limit, 3),
            other => panic!("{:?}", other),
        }
    }
}

#[test]
fn complaints_about_arguments() {
    let complaint = |args: &[&str]| try_parse_args_from(args).err().unwrap();
    assert_eq!(complaint(&["find-stutter", "--help"]), ArgError::Help);
    assert_eq!(complaint(&["find-stutter", "--version"]), ArgError::Version);
    assert_eq!(complaint(&["find-stutter", "explode"]), ArgError::UnknownCommand);
    assert_eq!(complaint(&["find-stutter", "events", "--colour", "red"]), ArgError::UnexpectedArgument);
    assert_eq!(complaint(&["find-stutter", "events", "--from"]), ArgError::MissingValue);
    assert_eq!(complaint(&["find-stutter", "events", "--limit", "1", "--limit", "2"]), ArgError::RepeatedOption);
    assert_eq!(complaint(&["find-stutter", "events", "--limit", "many"]), ArgError::InvalidNumber);
    assert_eq!(complaint(&["find-stutter", "export", "--from", "a"]), ArgError::MissingRequired);
    assert_eq!(complaint(&["find-stutter", "query"]), ArgError::MissingRequired);
}

#[test]
fn counts_read_like_numbers() {
    for s in ["0", "007", "+5", "18446744073709551615", "18446744073709551616", "-1", "", "+", "1x", " 1"] {
        assert_eq!(parse_count(s), s.parse::<usize>().ok(), "{:?}", s);
    }
}

#[test]
fn parse_run_subcommand() {
    let cli = ServiceCli::try_parse_from(&["find-stutter-service", "run"]).unwrap();
    assert!(matches!(cli.command, Some(ServiceCommands::Run)));
    assert_eq!(cli.config, "config.toml");
}

#[test]
fn parse_install_subcommand() {
    let cli = ServiceCli::try_parse_from(&["find-stutter-service", "install"]).unwrap();
    assert!(matches!(cli.command, Some(ServiceCommands::Install)));
}

#[test]
fn parse_uninstall_subcommand() {
    let cli = ServiceCli::try_parse_from(&["find-stutter-service", "uninstall"]).unwrap();
    assert!(matches!(cli.command, Some(ServiceCommands::Uninstall)));
}

#[test]
fn parse_start_subcommand() {
    let cli = ServiceCli::try_parse_from(&["find-stutter-service", "start"]).unwrap();
    assert!(matches!(cli.command, Some(ServiceCommands::Start)));
}

#[test]
fn parse_stop_subcommand() {
    let cli = ServiceCli::try_parse_from(&["find-stutter-service", "stop"]).unwrap();
    assert!(matches!(cli.command, Some(ServiceCommands::Stop)));
}

#[test]
fn parse_status_subcommand() {
    let cli = ServiceCli::try_parse_from(&["find-stutter-service", "status"]).unwrap();
    assert!(matches!(cli.command, Some(ServiceCommands::Status)));
}

#[test]
fn parse_install_start_subcommand() {
    let cli = ServiceCli::try_parse_from(&["find-stutter-service", "install-start"]).unwrap();
    assert!(matches!(cli.command, Some(ServiceCommands::InstallStart)));
}

#[test]
fn parse_with_custom_config() {
    let cli =
        ServiceCli::try_parse_from(&["find-stutter-service", "--config", "D:/etc/find-stutter.toml", "run"]).unwrap();
    assert_eq!(cli.config, "D:/etc/find-stutter.toml");
    assert!(matches!(cli.command, Some(ServiceCommands::Run)));
}

#[test]
fn parse_no_subcommand_is_none() {
    let cli = ServiceCli::try_parse_from(&["find-stutter-service"]).unwrap();
    assert!(cli.command.is_none());
}

#[test]
fn parse_unknown_subcommand_fails() {
    let result = ServiceCli::try_parse_from(&["find-stutter-service", "explode"]);
    assert!(result.is_err());
}

fn fake_paths() -> (String, String, String) {
    (
        r"D:\fake\rtk.exe".to_string(),
        r"D:\fake\find-stutter-service.exe".to_string(),
        r"D:\fake\repo".to_string(),
    )
}

fn full_plan() -> UpgradePlan {
    let (rtk, svc, root) = fake_paths();
    plan_upgrade(false, Some(rtk), Some(svc), Some(root)).unwrap()
}

#[test]
fn plan_full_has_four_steps_in_order() {
    assert_eq!(
        full_plan().steps,
        vec![UpgradeStep::StopService, UpgradeStep::BuildRelease, UpgradeStep::InstallStart, UpgradeStep::VerifyStatus]
    );
}

#[test]
fn plan_no_build_skips_build() {
    let (rtk, svc, root) = fake_paths();
    let plan = plan_upgrade(true, Some(rtk), Some(svc), Some(root)).unwrap();
    assert!(!plan.steps.contains(&UpgradeStep::BuildRelease));
    assert_eq!(plan.steps.len(), 3);
    assert_eq!(plan.steps.first(), Some(&UpgradeStep::StopService));
    assert_eq!(plan.steps.last(), Some(&UpgradeStep::VerifyStatus));
}

#[test]
fn plan_with_overrides_is_generated_even_if_paths_missing() {
    let plan = plan_upgrade(
        false,
        Some(r"D:\fake\rtk.exe".to_string()),
        Some(r"D:\__missing__\find-stutter-service.exe".to_string()),
        Some(r"D:\fake\repo".to_string()),
    );
    assert!(plan.is_ok());
}

#[test]
fn plans_need_a_tool_and_a_service() {
    assert!(plan_upgrade(false, None, Some("s".to_string()), None).is_err());
    assert!(plan_upgrade(false, Some("r".to_string()), None, None).is_err());
}

#[test]
fn step_descriptions_are_chinese() {
    assert!(UpgradeStep::StopService.describe().contains("停服"));
    assert!(UpgradeStep::BuildRelease.describe().contains("rtk"));
    assert!(UpgradeStep::InstallStart.describe().contains("install-start"));
    assert!(UpgradeStep::VerifyStatus.describe().contains("校验"));
}

#[test]
fn steps_decide_how_an_upgrade_goes_on() {
    let plan = full_plan();
    let after = |step: UpgradeStep, result: StepResult| after_step(&plan, step, &result);
    let stop = UpgradeStep::StopService;
    assert!(matches!(after(stop, StepResult::Elevated(ElevateOutcome::Exited(1))), UpgradeAction::Continue));
    assert!(matches!(after(stop, StepResult::Elevated(ElevateOutcome::UacDenied)), UpgradeAction::Abort(_)));
    assert!(matches!(after(stop, StepResult::Elevated(ElevateOutcome::Timeout)), UpgradeAction::ContinueWith(_)));
    let install = UpgradeStep::InstallStart;
    assert!(matches!(after(install, StepResult::Elevated(ElevateOutcome::Exited(0))), UpgradeAction::Continue));
    assert!(matches!(after(install, StepResult::Elevated(ElevateOutcome::Exited(1))), UpgradeAction::Abort(_)));
    assert!(matches!(after(UpgradeStep::VerifyStatus, StepResult::Status(0)), UpgradeAction::Finish));
    match after(UpgradeStep::VerifyStatus, StepResult::Status(2)) {
        UpgradeAction::Abort(e) => assert_eq!(e, "校验失败：status 退出码 2（非 Running）"),
        other => panic!("{:?}", other),
    }
    match after(UpgradeStep::BuildRelease, StepResult::Built(false, Some(101), "boom".to_string())) {
        UpgradeAction::Abort(e) => assert_eq!(e, format!("构建失败（exit={:?}）：boom", Some(101))),
        other => panic!("{:?}", other),
    }
    assert!(matches!(after(UpgradeStep::BuildRelease, StepResult::Built(true, Some(0), String::new())), UpgradeAction::Continue));
    assert!(matches!(after(UpgradeStep::BuildRelease, StepResult::BuildNotStarted("x".to_string())), UpgradeAction::Abort(_)));
    assert!(matches!(after(UpgradeStep::VerifyStatus, StepResult::StatusNotStarted("x".to_string())), UpgradeAction::Abort(_)));
}

#[test]
fn workspaces_and_lines_are_found() {
    let manifests = vec![None, Some("[package]".to_string()), Some("[workspace]\nmembers = []".to_string())];
    assert_eq!(find_workspace(&manifests), Some(2));
    assert_eq!(find_workspace(&vec![None]), None);
    assert_eq!(first_line("  C:\\rtk.exe \r\nD:\\rtk.exe\r\n"), Some("C:\\rtk.exe".to_string()));
    assert_eq!(first_line(""), None);
}

use matrix_user_swap::execute::ExecuteError;
use matrix_user_swap::ids::UserKind;
use matrix_user_swap::plan::FatalPlanError;
use matrix_user_swap::session::{Account, Config, Error, Outcome, Session, Step};
use matrix_user_swap::state::AccessError;

use UserKind::{New, Old};

fn error() -> AccessError {
    AccessError { messages: vec!["first".to_string(), "second".to_string()] }
}

fn config(old_token: bool, new_token: bool) -> Config {
    Config {
        old_url: "https://x.org".to_string(),
        new_url: "https://x.org".to_string(),
        old_account: Account { has_token: old_token, has_password: false },
        new_account: Account { has_token: new_token, has_password: true },
        anonymize: false,
        dry_run: false,
    }
}

/// Runs to the end. One step has a special outcome; the others succeed.
fn run(config: Config, special: Option<(Step, Outcome)>) -> (Vec<Step>, Result<(), Error>) {
    let mut session = Session::new(config);
    let mut steps = vec![];
    let mut special = special;
    while let Some(step) = session.step() {
        steps.push(step);
        let outcome = match special.take() {
            Some((at, outcome)) if at == step => outcome,
            other => {
                special = other;
                Outcome::Success
            }
        };
        session = session.resume(outcome);
    }
    (steps, session.result().unwrap())
}

#[test]
fn sessions_that_were_created_are_logged_out() {
    let (steps, result) = run(config(false, false), None);
    assert_eq!(
        steps,
        vec![
            Step::Connect(Old),
            Step::AskPassword(Old),
            Step::LogIn(Old),
            Step::Identify(Old),
            Step::Connect(New),
            Step::LogIn(New),
            Step::Identify(New),
            Step::MakePlan,
            Step::ShowPlan,
            Step::Confirm,
            Step::Execute,
            Step::LogOut(Old),
            Step::LogOut(New),
        ]
    );
    assert!(result.is_ok());
    let (steps, _) = run(config(true, true), None);
    assert_eq!(
        steps,
        vec![
            Step::Connect(Old),
            Step::Identify(Old),
            Step::Connect(New),
            Step::Identify(New),
            Step::MakePlan,
            Step::ShowPlan,
            Step::Confirm,
            Step::Execute,
        ]
    );
    let (steps, _) = run(config(true, false), None);
    assert_eq!(steps.last(), Some(&Step::LogOut(New)));
    assert!(!steps.contains(&Step::LogOut(Old)));
}

#[test]
fn different_servers_are_not_supported() {
    let config = Config { new_url: "https://y.org".to_string(), ..config(false, false) };
    let (steps, result) = run(config, None);
    assert!(steps.is_empty());
    assert!(matches!(result, Err(Error::DifferentServers)));
}

#[test]
fn failing_to_sign_in_ends_the_run() {
    let fail = |step| run(config(false, false), Some((step, Outcome::Failure(error()))));
    let (steps, result) = fail(Step::Connect(Old));
    assert_eq!(steps.last(), Some(&Step::Connect(Old)));
    assert!(matches!(result, Err(Error::InitClient(Old, _))));
    let (steps, result) = fail(Step::LogIn(Old));
    assert_eq!(steps.last(), Some(&Step::LogIn(Old)));
    assert!(matches!(result, Err(Error::LogIn(Old, _))));
    let (steps, result) = fail(Step::Identify(Old));
    assert_eq!(steps[3..], [Step::Identify(Old), Step::LogOut(Old)]);
    assert!(matches!(result, Err(Error::InitClientState(Old, _))));
    let (steps, result) = fail(Step::Connect(New));
    assert_eq!(steps[4..], [Step::Connect(New), Step::LogOut(Old)]);
    assert!(matches!(result, Err(Error::InitClient(New, _))));
    let (steps, result) = fail(Step::LogIn(New));
    assert_eq!(steps[5..], [Step::LogIn(New), Step::LogOut(Old)]);
    assert!(matches!(result, Err(Error::LogIn(New, _))));
    let (steps, result) = fail(Step::Identify(New));
    assert_eq!(steps[6..], [Step::Identify(New), Step::LogOut(New), Step::LogOut(Old)]);
    assert!(matches!(result, Err(Error::InitClientState(New, _))));
}

#[test]
fn a_plan_is_only_executed_if_the_user_agrees() {
    let (steps, result) = run(config(true, true), Some((Step::Confirm, Outcome::Declined)));
    assert!(!steps.contains(&Step::Execute));
    assert!(result.is_ok());
    let (steps, result) = run(Config { dry_run: true, ..config(false, true) }, None);
    assert!(!steps.contains(&Step::Confirm) && !steps.contains(&Step::Execute));
    assert_eq!(steps.last(), Some(&Step::LogOut(Old)));
    assert!(result.is_ok());
}

#[test]
fn a_plan_is_anonymized_before_it_is_shown() {
    let (steps, _) = run(Config { anonymize: true, ..config(true, true) }, None);
    assert_eq!(
        steps[4..],
        [Step::MakePlan, Step::Anonymize, Step::ShowPlan, Step::Confirm, Step::Execute]
    );
}

#[test]
fn failures_later_on_are_the_result() {
    let no_plan = Outcome::NoPlan(FatalPlanError::GetUserId(New, error()));
    let (steps, result) = run(config(false, false), Some((Step::MakePlan, no_plan)));
    assert_eq!(
        steps[7..],
        [Step::MakePlan, Step::LogOut(Old), Step::LogOut(New)]
    );
    assert!(matches!(result, Err(Error::MakePlan(_))));
    let failed = Outcome::Executed(ExecuteError { error_count: 3 });
    let (steps, result) = run(config(false, false), Some((Step::Execute, failed)));
    assert_eq!(steps[11..], [Step::LogOut(Old), Step::LogOut(New)]);
    assert!(matches!(result, Err(Error::ExecutePlan(ExecuteError { error_count: 3 }))));
}

#[test]
fn failing_to_log_out_counts_if_nothing_else_went_wrong() {
    for kind in [Old, New] {
        let failure = Some((Step::LogOut(kind), Outcome::Failure(error())));
        let (steps, result) = run(config(false, false), failure);
        assert_eq!(steps.last(), Some(&Step::LogOut(New)));
        assert!(matches!(result, Err(Error::LogOut)));
    }
    // The earlier error stays.
    let mut session = Session::new(config(false, false));
    while let Some(step) = session.step() {
        session = session.resume(match step {
            Step::MakePlan => Outcome::NoPlan(FatalPlanError::GetUserId(New, error())),
            Step::LogOut(_) => Outcome::Failure(error()),
            _ => Outcome::Success,
        });
    }
    assert!(matches!(session.result(), Some(Err(Error::MakePlan(_)))));
}

#[test]
fn errors_are_shown_with_their_causes() {
    assert_eq!(
        Error::LogIn(Old, error()).report(),
        "Error: failed to log in to old user\n  Caused by: first\n  Caused by: second"
    );
    assert_eq!(
        Error::InitClient(New, error()).messages(),
        vec!["failed to initialize matrix client for new user", "first", "second"]
    );
    assert_eq!(
        Error::InitClientState(New, error()).messages()[0],
        "failed to initialize state accessor for new user"
    );
    assert_eq!(
        Error::InitLogging(error()).messages(),
        vec!["failed to initialize logging", "first", "second"]
    );
    assert_eq!(
        Error::DifferentServers.report(),
        "Error: migration between different homeservers is currently unsupported"
    );
    assert_eq!(
        Error::LogOut.report(),
        "Error: failed to log out one or both users"
    );
    assert_eq!(
        Error::MakePlan(FatalPlanError::GetJoinedRooms(Old, error())).messages(),
        vec![
            "failed to compute migration plan",
            "failed to get joined room list for old user",
            "first",
            "second",
        ]
    );
    assert_eq!(
        Error::ExecutePlan(ExecuteError { error_count: 12 }).messages(),
        vec![
            "failed to execute migration plan",
            "migration encountered 12 unexpected errors. See previous logs for details.",
        ]
    );
}
